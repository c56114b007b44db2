//! The equipment, idols and blessings sections of the build report.
use vstd::prelude::*;

use crate::json::{
    as_array_of, as_f64_bits_of, as_object_of, as_str_of, as_u64_of, get_in, jarr, jf64, jget,
    jobj, json_get, jstr, ju64, member, u64_or, Json,
};
use crate::sub_logic::report::{lemma_text_concat, text, Piece, Report};
use crate::sub_logic::resolver::{
    vseq, Detail, DetailView, Resolver, ResolverModel, StatLine,
};
use crate::sub_logic::trees::member_of;
use crate::text::{append_dec, dec, dec_text};

verus! {

// ---------------------------------------------------------------- affixes
/// The tier of an affix (1 when missing).
pub open spec fn affix_tier(affix: Json) -> usize {
    u64_or(ju64(json_get(affix, "tier"@)), 1) as usize
}

/// The roll of an affix, an `f64` bit pattern (0.0 when missing).
pub open spec fn affix_roll(affix: Json) -> u64 {
    u64_or(jf64(json_get(affix, "r"@)), 0)
}

/// One affix line: its detail lines followed by `tag`, or, without detail,
/// its tier and name, with `tag` written after the tier (equipment) or not at
/// all (`tag_after_tier` false: idols write `[T{tier}] {name}`).
pub open spec fn affix_pieces(m: ResolverModel, affix: Json, tag: Seq<char>) -> Seq<Piece> {
    match jstr(json_get(affix, "id"@)) {
        None => Seq::empty(),
        Some(aid) => {
            let tier = affix_tier(affix);
            let d = m.affix_detail(aid, tier, affix_roll(affix));
            if d.len() > 0 {
                text("    - "@).push(Piece::Stats(d)) + text(tag + "\n"@)
            } else {
                text("    - [T"@ + dec(tier as nat) + "]"@ + tag + " "@ + m.affix_name(aid) + "\n"@)
            }
        },
    }
}

fn append_affix(r: &mut Report, resolver: &Resolver, affix: &Json, tag: &str)
    ensures
        final(r)@ == old(r)@ + affix_pieces(resolver@, *affix, tag@),
{
    if let Some(aid) = as_str_of(affix.get("id")) {
        #[verifier::truncate]
        let tier = match as_u64_of(affix.get("tier")) {
            Some(t) => t,
            None => 1,
        } as usize;
        let roll = match as_f64_bits_of(affix.get("r")) {
            Some(b) => b,
            None => 0,
        };
        let detail = resolver.get_affix_detail(aid.as_str(), tier, roll);
        if detail.len() > 0 {
            r.push_str("    - ");
            r.push_stats(detail);
            let mut rest = String::new();
            rest.append(tag);
            rest.append("\n");
            r.push_string(rest);
        } else {
            let name = resolver.get_affix_name(aid.as_str());
            let mut line = String::new();
            line.append("    - [T");
            append_dec(&mut line, tier as u64);
            line.append("]");
            line.append(tag);
            line.append(" ");
            line.append(name.as_str());
            line.append("\n");
            r.push_string(line);
        }
    }
    proof {
        assert(r@ =~= old(r)@ + affix_pieces(resolver@, *affix, tag@));
    }
}

// ---------------------------------------------------------------- equipment
/// The roll bytes of an item (`ir`), each reduced to its low byte; nothing
/// when the item has none.
pub open spec fn item_rolls(item: Json) -> Option<Seq<u8>> {
    match jarr(json_get(item, "ir"@)) {
        Some(a) => Some(a.map_values(|v: Json| u64_or(ju64(Some(v)), 0) as u8)),
        None => None,
    }
}

/// `    - {detail}` lines.
pub open spec fn detail_pieces(ds: Seq<DetailView>) -> Seq<Piece>
    decreases ds.len(),
{
    if ds.len() == 0 {
        Seq::empty()
    } else {
        detail_pieces(ds.drop_last()) + match ds.last() {
            DetailView::Stat(l) => text("    - "@).push(Piece::Stats(seq![l])) + text("\n"@),
            DetailView::Text(t) => text("    - "@ + t + "\n"@),
        }
    }
}

/// The item line of an equipped item, then its unique stats or, for other
/// items, its implicits.
pub open spec fn item_pieces(m: ResolverModel, item: Json) -> Seq<Piece> {
    match jstr(json_get(item, "id"@)) {
        None => Seq::empty(),
        Some(id) => {
            let name = m.item_name(id);
            let line = match m.item_type_name(id) {
                Some(t) => "  Item: "@ + name + " ("@ + t + ")\n"@,
                None => "  Item: "@ + name + "\n"@,
            };
            let details = match item_rolls(item) {
                Some(ir) => m.unique_detail(id, ir),
                None => Seq::empty(),
            };
            text(line) + if details.len() > 0 {
                text("  Stats:\n"@) + detail_pieces(details)
            } else {
                let imps = m.item_implicits(id);
                if imps.len() > 0 {
                    text("  Implicits: "@).push(Piece::Stats(imps)) + text("\n"@)
                } else {
                    Seq::empty()
                }
            }
        },
    }
}

/// The affixes of an item with their tags: the regular ones, then the sealed
/// one, then the experimental (corrupted) one.
pub open spec fn tagged_affixes(item: Json) -> Seq<(Json, Seq<char>)> {
    let regular = match jarr(json_get(item, "affixes"@)) {
        Some(a) => a.map_values(|x: Json| (x, Seq::<char>::empty())),
        None => Seq::empty(),
    };
    let sealed = match json_get(item, "sealedAffix"@) {
        Some(x) => seq![(x, " (Sealed)"@)],
        None => Seq::empty(),
    };
    let corrupted = match json_get(item, "corruptedAffix"@) {
        Some(x) => seq![(x, " (Experimental)"@)],
        None => Seq::empty(),
    };
    regular + sealed + corrupted
}

pub open spec fn tagged_affix_pieces(m: ResolverModel, affixes: Seq<(Json, Seq<char>)>) -> Seq<Piece>
    decreases affixes.len(),
{
    if affixes.len() == 0 {
        Seq::empty()
    } else {
        tagged_affix_pieces(m, affixes.drop_last()) + affix_pieces(
            m,
            affixes.last().0,
            affixes.last().1,
        )
    }
}

/// One equipment slot: its name, its item, its affixes, and a blank line.
pub open spec fn slot_pieces(m: ResolverModel, slot: Seq<char>, item: Json) -> Seq<Piece> {
    let affixes = tagged_affixes(item);
    text("Slot: "@ + slot + "\n"@) + item_pieces(m, item) + (if affixes.len() > 0 {
        text("  Affixes:\n"@) + tagged_affix_pieces(m, affixes)
    } else {
        Seq::empty()
    }) + text("\n"@)
}

pub open spec fn slots_pieces(m: ResolverModel, es: Seq<(String, Json)>) -> Seq<Piece>
    decreases es.len(),
{
    if es.len() == 0 {
        Seq::empty()
    } else {
        slots_pieces(m, es.drop_last()) + slot_pieces(m, es.last().0@, es.last().1)
    }
}

/// The equipment section: one entry per slot of `data.equipment`.
pub open spec fn equipment_pieces(build: Json, m: ResolverModel) -> Seq<Piece> {
    match jobj(jget(jget(Some(build), "data"@), "equipment"@)) {
        Some(es) => slots_pieces(m, es),
        None => text("No equipment data found.\n"@),
    }
}

fn item_rolls_exec(arr: &Vec<Json>) -> (r: Vec<u8>)
    ensures
        r@ == arr@.map_values(|v: Json| u64_or(ju64(Some(v)), 0) as u8),
{
    let mut out: Vec<u8> = Vec::new();
    let mut i: usize = 0;
    while i < arr.len()
        invariant
            i <= arr@.len(),
            out@ =~= arr@.take(i as int).map_values(|v: Json| u64_or(ju64(Some(v)), 0) as u8),
        decreases arr.len() - i,
    {
        let v = match as_u64_of(Some(&arr[i])) {
            Some(x) => x,
            None => 0,
        };
        out.push(v as u8);
        i += 1;
        proof {
            assert(out@ =~= arr@.take(i as int).map_values(|v: Json| u64_or(ju64(Some(v)), 0) as u8));
        }
    }
    proof {
        assert(arr@.take(arr@.len() as int) =~= arr@);
    }
    out
}

fn append_details(r: &mut Report, details: &Vec<Detail>)
    ensures
        final(r)@ == old(r)@ + detail_pieces(vseq(details@)),
{
    let ghost ds = details@;
    let mut i: usize = 0;
    while i < details.len()
        invariant
            i <= details@.len(),
            ds == details@,
            r@ == old(r)@ + detail_pieces(vseq(ds).take(i as int)),
        decreases details.len() - i,
    {
        proof {
            assert(vseq(ds).take(i + 1).drop_last() =~= vseq(ds).take(i as int));
            assert(vseq(ds).take(i + 1).last() == ds[i as int]@);
        }
        match &details[i] {
            Detail::Stat(l) => {
                r.push_str("    - ");
                let mut one: Vec<StatLine> = Vec::new();
                let c = l.copy_line();
                one.push(c);
                proof {
                    assert(vseq(one@) =~= seq![l@]);
                }
                r.push_stats(one);
                r.push_str("\n");
            },
            Detail::Text(t) => {
                let mut line = String::new();
                line.append("    - ");
                line.append(t.as_str());
                line.append("\n");
                r.push_string(line);
            },
        }
        proof {
            assert(r@ =~= old(r)@ + detail_pieces(vseq(ds).take(i + 1)));
        }
        i += 1;
    }
    proof {
        assert(vseq(ds).take(ds.len() as int) =~= vseq(ds));
    }
}

fn append_item(r: &mut Report, resolver: &Resolver, item: &Json)
    ensures
        final(r)@ == old(r)@ + item_pieces(resolver@, *item),
{
    if let Some(id) = as_str_of(item.get("id")) {
        let name = resolver.get_item_name(id.as_str());
        let mut line = String::new();
        line.append("  Item: ");
        line.append(name.as_str());
        match resolver.get_item_type_name(id.as_str()) {
            Some(t) => {
                line.append(" (");
                line.append(t.as_str());
                line.append(")\n");
            },
            None => {
                line.append("\n");
            },
        }
        r.push_string(line);
        let ghost after_line = r@;
        let mut is_unique = false;
        if let Some(ir_arr) = as_array_of(item.get("ir")) {
            let ir = item_rolls_exec(ir_arr);
            let details = resolver.get_unique_detail(id.as_str(), ir.as_slice());
            if details.len() > 0 {
                is_unique = true;
                r.push_str("  Stats:\n");
                append_details(r, &details);
            }
        }
        if !is_unique {
            let implicits = resolver.get_item_implicits(id.as_str());
            if implicits.len() > 0 {
                r.push_str("  Implicits: ");
                r.push_stats(implicits);
                r.push_str("\n");
            }
        }
    }
    proof {
        assert(r@ =~= old(r)@ + item_pieces(resolver@, *item));
    }
}

#[verifier::spinoff_prover]
#[verifier::rlimit(40)]
fn append_tagged_affixes(r: &mut Report, resolver: &Resolver, item: &Json) -> (written: bool)
    ensures
        written == (tagged_affixes(*item).len() > 0),
        final(r)@ == old(r)@ + if written {
            text("  Affixes:\n"@) + tagged_affix_pieces(resolver@, tagged_affixes(*item))
        } else {
            Seq::empty()
        },
{
    let regular = as_array_of(item.get("affixes"));
    let sealed = item.get("sealedAffix");
    let corrupted = item.get("corruptedAffix");
    let n_regular: usize = match regular {
        Some(a) => a.len(),
        None => 0,
    };
    let ghost all = tagged_affixes(*item);
    let ghost reg = match jarr(json_get(*item, "affixes"@)) {
        Some(a) => a.map_values(|x: Json| (x, Seq::<char>::empty())),
        None => Seq::<(Json, Seq<char>)>::empty(),
    };
    assert(reg.len() == n_regular);
    let has_sealed = match sealed {
        Some(_) => true,
        None => false,
    };
    let has_corrupted = match corrupted {
        Some(_) => true,
        None => false,
    };
    if n_regular == 0 && !has_sealed && !has_corrupted {
        proof {
            assert(all.len() == 0);
        }
        return false;
    }
    r.push_str("  Affixes:\n");
    let ghost head = r@;
    if let Some(a) = regular {
        let mut i: usize = 0;
        while i < a.len()
            invariant
                i <= a@.len(),
                reg == a@.map_values(|x: Json| (x, Seq::<char>::empty())),
                r@ == head + tagged_affix_pieces(resolver@, reg.take(i as int)),
            decreases a.len() - i,
        {
            proof {
                assert(reg.take(i + 1).drop_last() =~= reg.take(i as int));
                assert(reg.take(i + 1).last() == (a@[i as int], Seq::<char>::empty()));
                reveal_strlit("");
            }
            append_affix(r, resolver, &a[i], "");
            i += 1;
        }
        proof {
            assert(reg.take(a@.len() as int) =~= reg);
        }
    } else {
        proof {
            assert(r@ =~= head + tagged_affix_pieces(resolver@, reg));
        }
    }
    let ghost s1 = match sealed {
        Some(x) => seq![(*x, " (Sealed)"@)],
        None => Seq::<(Json, Seq<char>)>::empty(),
    };
    if let Some(x) = sealed {
        append_affix(r, resolver, x, " (Sealed)");
        proof {
            assert((reg + s1).drop_last() =~= reg);
            assert((reg + s1).last() == (*x, " (Sealed)"@));
            assert(tagged_affix_pieces(resolver@, reg + s1) == tagged_affix_pieces(resolver@, reg)
                + affix_pieces(resolver@, *x, " (Sealed)"@));
            assert(r@ =~= head + tagged_affix_pieces(resolver@, reg + s1));
        }
    } else {
        proof {
            assert(reg + s1 =~= reg);
            assert(r@ =~= head + tagged_affix_pieces(resolver@, reg + s1));
        }
    }
    let ghost s2 = match corrupted {
        Some(x) => seq![(*x, " (Experimental)"@)],
        None => Seq::<(Json, Seq<char>)>::empty(),
    };
    if let Some(x) = corrupted {
        append_affix(r, resolver, x, " (Experimental)");
        proof {
            assert((reg + s1 + s2).drop_last() =~= reg + s1);
            assert((reg + s1 + s2).last() == (*x, " (Experimental)"@));
            assert(tagged_affix_pieces(resolver@, reg + s1 + s2) == tagged_affix_pieces(resolver@, reg + s1)
                + affix_pieces(resolver@, *x, " (Experimental)"@));
            assert(r@ =~= head + tagged_affix_pieces(resolver@, reg + s1 + s2));
        }
    } else {
        proof {
            assert(reg + s1 + s2 =~= reg + s1);
            assert(r@ =~= head + tagged_affix_pieces(resolver@, reg + s1 + s2));
        }
    }
    proof {
        assert(all == reg + s1 + s2);
        assert(r@ =~= old(r)@ + (text("  Affixes:\n"@) + tagged_affix_pieces(resolver@, all)));
    }
    true
}

fn append_slot(r: &mut Report, resolver: &Resolver, slot: &String, item: &Json)
    ensures
        final(r)@ == old(r)@ + slot_pieces(resolver@, slot@, *item),
{
    let mut line = String::new();
    line.append("Slot: ");
    line.append(slot.as_str());
    line.append("\n");
    r.push_string(line);
    append_item(r, resolver, item);
    append_tagged_affixes(r, resolver, item);
    r.push_str("\n");
    proof {
        assert(r@ =~= old(r)@ + slot_pieces(resolver@, slot@, *item));
    }
}

/// Writes the equipment section: for each slot its item (name and base
/// type), the unique's stats or the item's implicits, and its affixes with
/// their tiers and rolls (sealed and experimental ones tagged).
pub fn write_equipment(r: &mut Report, build: &Json, resolver: &Resolver)
    ensures
        final(r)@ == old(r)@ + equipment_pieces(*build, resolver@),
{
    match as_object_of(get_in(build.get("data"), "equipment")) {
        Some(es) => {
            let mut i: usize = 0;
            while i < es.len()
                invariant
                    i <= es@.len(),
                    r@ == old(r)@ + slots_pieces(resolver@, es@.take(i as int)),
                decreases es.len() - i,
            {
                proof {
                    assert(es@.take(i + 1).drop_last() =~= es@.take(i as int));
                    assert(es@.take(i + 1).last() == es@[i as int]);
                }
                append_slot(r, resolver, &es[i].0, &es[i].1);
                proof {
                    assert(r@ =~= old(r)@ + slots_pieces(resolver@, es@.take(i + 1)));
                }
                i += 1;
            }
            proof {
                assert(es@.take(es@.len() as int) =~= es@);
            }
        },
        None => {
            r.push_str("No equipment data found.\n");
        },
    }
}


// ---------------------------------------------------------------- idols
/// The affixes of an idol, one line each, untagged.
pub open spec fn idol_affixes_pieces(m: ResolverModel, affixes: Seq<Json>) -> Seq<Piece>
    decreases affixes.len(),
{
    if affixes.len() == 0 {
        Seq::empty()
    } else {
        idol_affixes_pieces(m, affixes.drop_last()) + affix_pieces(m, affixes.last(), Seq::empty())
    }
}

/// The idol at position `idx` of the altar: `Slot {idx + 1}: name (type)`,
/// its affixes and a blank line; nothing for an idol without an id.
pub open spec fn idol_pieces(m: ResolverModel, idx: nat, idol: Json) -> Seq<Piece> {
    match jstr(json_get(idol, "id"@)) {
        None => Seq::empty(),
        Some(id) => {
            let head = "Slot "@ + dec(idx + 1) + ": "@ + m.item_name(id);
            let line = match m.item_type_name(id) {
                Some(t) => head + " ("@ + t + ")\n"@,
                None => head + "\n"@,
            };
            let affixes = match jarr(json_get(idol, "affixes"@)) {
                Some(a) => idol_affixes_pieces(m, a),
                None => Seq::empty(),
            };
            text(line) + affixes + text("\n"@)
        },
    }
}

pub open spec fn idols_pieces(m: ResolverModel, idols: Seq<Json>) -> Seq<Piece>
    decreases idols.len(),
{
    if idols.len() == 0 {
        Seq::empty()
    } else {
        idols_pieces(m, idols.drop_last()) + idol_pieces(m, (idols.len() - 1) as nat, idols.last())
    }
}

/// The idols section, from the array `data.idols`.
pub open spec fn idols_section(build: Json, m: ResolverModel) -> Seq<Piece> {
    match jarr(jget(jget(Some(build), "data"@), "idols"@)) {
        Some(a) => if a.len() == 0 {
            text("No idols equipped in the Idol Altar.\n"@)
        } else {
            idols_pieces(m, a)
        },
        None => text("No idols data found.\n"@),
    }
}

fn append_idol(r: &mut Report, resolver: &Resolver, idx: usize, idol: &Json)
    requires
        idx < usize::MAX,
    ensures
        final(r)@ == old(r)@ + idol_pieces(resolver@, idx as nat, *idol),
{
    if let Some(id) = as_str_of(idol.get("id")) {
        let mut line = String::new();
        line.append("Slot ");
        append_dec(&mut line, (idx + 1) as u64);
        line.append(": ");
        let name = resolver.get_item_name(id.as_str());
        line.append(name.as_str());
        match resolver.get_item_type_name(id.as_str()) {
            Some(t) => {
                line.append(" (");
                line.append(t.as_str());
                line.append(")\n");
            },
            None => {
                line.append("\n");
            },
        }
        r.push_string(line);
        let ghost head = r@;
        let ghost affs = match jarr(json_get(*idol, "affixes"@)) {
            Some(a) => idol_affixes_pieces(resolver@, a),
            None => Seq::<Piece>::empty(),
        };
        if let Some(a) = as_array_of(idol.get("affixes")) {
            let mut i: usize = 0;
            while i < a.len()
                invariant
                    i <= a@.len(),
                    r@ == head + idol_affixes_pieces(resolver@, a@.take(i as int)),
                decreases a.len() - i,
            {
                proof {
                    assert(a@.take(i + 1).drop_last() =~= a@.take(i as int));
                    assert(a@.take(i + 1).last() == a@[i as int]);
                    reveal_strlit("");
                }
                append_affix(r, resolver, &a[i], "");
                i += 1;
            }
            proof {
                assert(a@.take(a@.len() as int) =~= a@);
            }
        }
        proof {
            assert(r@ =~= head + affs);
        }
        r.push_str("\n");
    }
    proof {
        assert(r@ =~= old(r)@ + idol_pieces(resolver@, idx as nat, *idol));
    }
}

/// Writes the idols section: for each idol of the altar its slot number,
/// name and type, and its affixes (detail lines, or tier and name).
pub fn write_idols(r: &mut Report, build: &Json, resolver: &Resolver)
    ensures
        final(r)@ == old(r)@ + idols_section(*build, resolver@),
{
    match as_array_of(get_in(build.get("data"), "idols")) {
        Some(idols) => {
            if idols.len() == 0 {
                r.push_str("No idols equipped in the Idol Altar.\n");
                return;
            }
            let mut i: usize = 0;
            while i < idols.len()
                invariant
                    i <= idols@.len(),
                    r@ == old(r)@ + idols_pieces(resolver@, idols@.take(i as int)),
                decreases idols.len() - i,
            {
                proof {
                    assert(idols@.take(i + 1).drop_last() =~= idols@.take(i as int));
                    assert(idols@.take(i + 1).last() == idols@[i as int]);
                }
                append_idol(r, resolver, i, &idols[i]);
                i += 1;
            }
            proof {
                assert(idols@.take(idols@.len() as int) =~= idols@);
            }
        },
        None => {
            r.push_str("No idols data found.\n");
        },
    }
}

// ---------------------------------------------------------------- blessings
/// The ten timelines, in the order of their keys `1` to `10`.
pub const TIMELINES: [&'static str; 10] = [
    "Fall of the Outcasts",
    "The Stolen Lance",
    "The Black Sun",
    "Blood, Frost, and Death",
    "Ending the Storm",
    "Fall of the Empire",
    "Reign of Dragons",
    "The Last Ruin",
    "Age of Winter",
    "Spirits of Fire",
];

/// The line of timeline `i` (1 to 10): the blessing's name and, when its
/// item has implicits, a `  - ` line with them; `No Blessing` when the
/// member `i` is missing, not an object, or has no id.
pub open spec fn blessing_pieces(m: ResolverModel, blessings: Seq<(String, Json)>, i: nat) -> Seq<Piece> {
    let timeline = TIMELINES@[i - 1]@;
    let none = text(timeline + ": No Blessing\n"@);
    match member(blessings, dec(i)) {
        Some(b) => match b {
            Json::Object(_) => match jstr(json_get(b, "id"@)) {
                Some(id) => {
                    let imps = m.item_implicits(id);
                    text(timeline + ": "@ + m.item_name(id) + "\n"@) + if imps.len() > 0 {
                        text("  - "@).push(Piece::Stats(imps)) + text("\n"@)
                    } else {
                        Seq::empty()
                    }
                },
                None => none,
            },
            _ => none,
        },
        None => none,
    }
}

/// The lines of timelines 1 to `n`.
pub open spec fn blessings_upto(m: ResolverModel, blessings: Seq<(String, Json)>, n: nat) -> Seq<Piece>
    decreases n,
{
    if n == 0 {
        Seq::empty()
    } else {
        blessings_upto(m, blessings, (n - 1) as nat) + blessing_pieces(m, blessings, n)
    }
}

/// The blessings section, from the object `data.blessings`.
pub open spec fn blessings_section(build: Json, m: ResolverModel) -> Seq<Piece> {
    match jobj(jget(jget(Some(build), "data"@), "blessings"@)) {
        Some(bs) => blessings_upto(m, bs, 10),
        None => text("No blessings data found.\n"@),
    }
}

/// Every timeline gets its line, in timeline order: the lines of timeline
/// `i` begin with its name.
pub proof fn law_blessing_lines_name_their_timeline(
    m: ResolverModel,
    blessings: Seq<(String, Json)>,
    i: nat,
)
    requires
        1 <= i <= 10,
    ensures
        blessing_pieces(m, blessings, i).len() >= text(TIMELINES@[i - 1]@ + ": "@).len(),
        blessing_pieces(m, blessings, i).subrange(0, text(TIMELINES@[i - 1]@ + ": "@).len() as int)
            == text(TIMELINES@[i - 1]@ + ": "@),
        blessings_upto(m, blessings, i) == blessings_upto(m, blessings, (i - 1) as nat)
            + blessing_pieces(m, blessings, i),
{
    let timeline = TIMELINES@[i - 1]@;
    let head = timeline + ": "@;
    let none = timeline + ": No Blessing\n"@;
    reveal_strlit(": ");
    reveal_strlit(": No Blessing\n");
    reveal_strlit("No Blessing\n");
    assert(none =~= head + "No Blessing\n"@);
    lemma_text_concat(head, "No Blessing\n"@);
    match member(blessings, dec(i)) {
        Some(b) => match b {
            Json::Object(_) => match jstr(json_get(b, "id"@)) {
                Some(id) => {
                    let line = timeline + ": "@ + m.item_name(id) + "\n"@;
                    assert(line =~= head + (m.item_name(id) + "\n"@));
                    lemma_text_concat(head, m.item_name(id) + "\n"@);
                },
                None => {},
            },
            _ => {},
        },
        None => {},
    }
    assert(blessing_pieces(m, blessings, i).subrange(0, text(head).len() as int) =~= text(head));
}

fn append_blessing(r: &mut Report, resolver: &Resolver, blessings: &Vec<(String, Json)>, i: usize)
    requires
        1 <= i <= 10,
    ensures
        final(r)@ == old(r)@ + blessing_pieces(resolver@, blessings@, i as nat),
{
    let timeline = TIMELINES[i - 1];
    let key = dec_text(i as u64);
    let mut written = false;
    if let Some(b) = member_of(blessings, key.as_str()) {
        if let Some(_) = as_object_of(Some(b)) {
            if let Some(id) = as_str_of(b.get("id")) {
                let mut line = String::new();
                line.append(timeline);
                line.append(": ");
                let name = resolver.get_item_name(id.as_str());
                line.append(name.as_str());
                line.append("\n");
                r.push_string(line);
                let implicits = resolver.get_item_implicits(id.as_str());
                if implicits.len() > 0 {
                    r.push_str("  - ");
                    r.push_stats(implicits);
                    r.push_str("\n");
                }
                written = true;
            }
        }
    }
    if !written {
        let mut line = String::new();
        line.append(timeline);
        line.append(": No Blessing\n");
        r.push_string(line);
    }
    proof {
        assert(r@ =~= old(r)@ + blessing_pieces(resolver@, blessings@, i as nat));
    }
}

/// Writes the blessings section: one line per timeline, in timeline order.
pub fn write_blessings(r: &mut Report, build: &Json, resolver: &Resolver)
    ensures
        final(r)@ == old(r)@ + blessings_section(*build, resolver@),
{
    match as_object_of(get_in(build.get("data"), "blessings")) {
        Some(bs) => {
            let mut i: usize = 1;
            while i <= 10
                invariant
                    1 <= i <= 11,
                    r@ == old(r)@ + blessings_upto(resolver@, bs@, (i - 1) as nat),
                decreases 11 - i,
            {
                append_blessing(r, resolver, bs, i);
                i += 1;
            }
        },
        None => {
            r.push_str("No blessings data found.\n");
        },
    }
}

// ---------------------------------------------------------------- laws

/// The stats of a unique item are written one line per detail, in order.
/// The result for two runs joined is the results joined.
pub proof fn law_detail_pieces_concatenate(s: Seq<DetailView>, t: Seq<DetailView>)
    ensures
        detail_pieces(s + t) == detail_pieces(s) + detail_pieces(t),
    decreases t.len(),
{
    if t.len() == 0 {
        assert(s + t =~= s);
        assert(detail_pieces(s) + detail_pieces(t) =~= detail_pieces(s));
    } else {
        law_detail_pieces_concatenate(s, t.drop_last());
        assert((s + t).drop_last() =~= s + t.drop_last());
        assert((s + t).last() == t.last());
        assert(detail_pieces(s + t) =~= detail_pieces(s) + detail_pieces(t));
    }
}

/// The affixes of an item are written one after another, in order.
/// The result for two runs joined is the results joined.
pub proof fn law_tagged_affix_pieces_concatenate(m: ResolverModel, s: Seq<(Json, Seq<char>)>, t: Seq<(Json, Seq<char>)>)
    ensures
        tagged_affix_pieces(m, s + t) == tagged_affix_pieces(m, s) + tagged_affix_pieces(m, t),
    decreases t.len(),
{
    if t.len() == 0 {
        assert(s + t =~= s);
        assert(tagged_affix_pieces(m, s) + tagged_affix_pieces(m, t) =~= tagged_affix_pieces(m, s));
    } else {
        law_tagged_affix_pieces_concatenate(m, s, t.drop_last());
        assert((s + t).drop_last() =~= s + t.drop_last());
        assert((s + t).last() == t.last());
        assert(tagged_affix_pieces(m, s + t) =~= tagged_affix_pieces(m, s) + tagged_affix_pieces(m, t));
    }
}

/// The equipment slots are written one after another, in order.
/// The result for two runs joined is the results joined.
pub proof fn law_slots_pieces_concatenate(m: ResolverModel, s: Seq<(String, Json)>, t: Seq<(String, Json)>)
    ensures
        slots_pieces(m, s + t) == slots_pieces(m, s) + slots_pieces(m, t),
    decreases t.len(),
{
    if t.len() == 0 {
        assert(s + t =~= s);
        assert(slots_pieces(m, s) + slots_pieces(m, t) =~= slots_pieces(m, s));
    } else {
        law_slots_pieces_concatenate(m, s, t.drop_last());
        assert((s + t).drop_last() =~= s + t.drop_last());
        assert((s + t).last() == t.last());
        assert(slots_pieces(m, s + t) =~= slots_pieces(m, s) + slots_pieces(m, t));
    }
}

/// The affixes of an idol are written one after another, in order.
/// The result for two runs joined is the results joined.
pub proof fn law_idol_affixes_pieces_concatenate(m: ResolverModel, s: Seq<Json>, t: Seq<Json>)
    ensures
        idol_affixes_pieces(m, s + t) == idol_affixes_pieces(m, s) + idol_affixes_pieces(m, t),
    decreases t.len(),
{
    if t.len() == 0 {
        assert(s + t =~= s);
        assert(idol_affixes_pieces(m, s) + idol_affixes_pieces(m, t) =~= idol_affixes_pieces(m, s));
    } else {
        law_idol_affixes_pieces_concatenate(m, s, t.drop_last());
        assert((s + t).drop_last() =~= s + t.drop_last());
        assert((s + t).last() == t.last());
        assert(idol_affixes_pieces(m, s + t) =~= idol_affixes_pieces(m, s) + idol_affixes_pieces(m, t));
    }
}


/// A single affix gives its own line.
pub proof fn law_tagged_affix_pieces_single(m: ResolverModel, a: (Json, Seq<char>))
    ensures
        tagged_affix_pieces(m, seq![a]) == affix_pieces(m, a.0, a.1),
{
    assert(seq![a].drop_last() =~= Seq::<(Json, Seq<char>)>::empty());
    assert(seq![a].last() == a);
    assert(tagged_affix_pieces(m, Seq::<(Json, Seq<char>)>::empty()).len() == 0);
    assert(tagged_affix_pieces(m, seq![a]) =~= affix_pieces(m, a.0, a.1));
}

/// A single idol affix gives its own untagged line.
pub proof fn law_idol_affixes_pieces_single(m: ResolverModel, a: Json)
    ensures
        idol_affixes_pieces(m, seq![a]) == affix_pieces(m, a, Seq::empty()),
{
    assert(seq![a].drop_last() =~= Seq::<Json>::empty());
    assert(seq![a].last() == a);
    assert(idol_affixes_pieces(m, Seq::<Json>::empty()).len() == 0);
    assert(idol_affixes_pieces(m, seq![a]) =~= affix_pieces(m, a, Seq::empty()));
}

/// A single slot gives its own entry.
pub proof fn law_slots_pieces_single(m: ResolverModel, e: (String, Json))
    ensures
        slots_pieces(m, seq![e]) == slot_pieces(m, e.0@, e.1),
{
    assert(seq![e].drop_last() =~= Seq::<(String, Json)>::empty());
    assert(seq![e].last() == e);
    assert(slots_pieces(m, Seq::<(String, Json)>::empty()).len() == 0);
    assert(slots_pieces(m, seq![e]) =~= slot_pieces(m, e.0@, e.1));
}

/// The idols are written in altar order, each numbered by its position:
/// adding an idol after others adds its own entry, numbered after them.
pub proof fn law_idols_pieces_push(m: ResolverModel, idols: Seq<Json>, idol: Json)
    ensures
        idols_pieces(m, idols.push(idol)) == idols_pieces(m, idols) + idol_pieces(m, idols.len(), idol),
{
    assert(idols.push(idol).drop_last() =~= idols);
    assert(idols.push(idol).last() == idol);
}

} // verus!
