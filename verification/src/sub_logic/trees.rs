//! The skills and passives sections of the build report.
use vstd::prelude::*;

use crate::json::{
    append_json_text, as_array_of, as_bool_of, as_object_of, as_str_of, as_u64_of, get_in,
    index_in, jarr, jbool, jget, jobj, json_get, json_text, jstr, ju64, member, opt_json, u64_or,
    Json,
};
use crate::sorting::{sort_stable, stable_sorted};
use crate::sub_logic::resolver::{str_or, u32_or_zero, Resolver, ResolverModel};
use crate::sub_logic::{get_mastery_name, mastery_group_name};
use crate::text::{
    append_dec, dec, dec_text, has_prefix, join, joined, parse_u32_or_zero, parse_u8,
    parse_unsigned, replace_char, replaced, starts_with, str_eq, views,
};

verus! {

// ---------------------------------------------------------------- ordering
/// Each member paired with its numeric key (`key.parse::<u32>()`, 0 when it
/// does not parse) and its position.
pub open spec fn keyed_members(es: Seq<(String, Json)>) -> Seq<(u64, usize)> {
    Seq::new(es.len(), |j: int| (u32_or_zero(es[j].0@) as u64, j as usize))
}

pub open spec fn positions(s: Seq<(u64, usize)>) -> Seq<usize> {
    s.map_values(|p: (u64, usize)| p.1)
}

/// The positions of the members in stable order of their numeric keys.
pub open spec fn numeric_order(es: Seq<(String, Json)>) -> Seq<usize> {
    positions(stable_sorted(keyed_members(es)))
}

fn keyed_members_exec(es: &Vec<(String, Json)>) -> (r: Vec<(u64, usize)>)
    ensures
        r@ == keyed_members(es@),
{
    let mut out: Vec<(u64, usize)> = Vec::new();
    let mut j: usize = 0;
    while j < es.len()
        invariant
            j <= es@.len(),
            out@ =~= keyed_members(es@).take(j as int),
        decreases es.len() - j,
    {
        out.push((parse_u32_or_zero(es[j].0.as_str()) as u64, j));
        j += 1;
        proof {
            assert(out@ =~= keyed_members(es@).take(j as int));
        }
    }
    proof {
        assert(keyed_members(es@).take(es@.len() as int) =~= keyed_members(es@));
    }
    out
}

fn positions_exec(s: &Vec<(u64, usize)>) -> (r: Vec<usize>)
    ensures
        r@ == positions(s@),
{
    let mut out: Vec<usize> = Vec::new();
    let mut i: usize = 0;
    while i < s.len()
        invariant
            i <= s@.len(),
            out@ =~= positions(s@).take(i as int),
        decreases s.len() - i,
    {
        out.push(s[i].1);
        i += 1;
        proof {
            assert(out@ =~= positions(s@).take(i as int));
        }
    }
    proof {
        assert(positions(s@).take(s@.len() as int) =~= positions(s@));
    }
    out
}

/// The positions of the members in stable order of their numeric keys.
pub fn numeric_order_exec(es: &Vec<(String, Json)>) -> (r: Vec<usize>)
    ensures
        r@ == numeric_order(es@),
{
    let keyed = keyed_members_exec(es);
    let sorted = sort_stable(&keyed);
    positions_exec(&sorted)
}

/// Whether every position in `order` indexes a member of `es`.
pub open spec fn order_in_bounds(order: Seq<usize>, n: nat) -> bool {
    forall|i: int| 0 <= i < order.len() ==> #[trigger] order[i] < n
}

proof fn lemma_stable_sorted_payloads(s: Seq<(u64, usize)>, n: nat)
    requires
        forall|i: int| 0 <= i < s.len() ==> #[trigger] s[i].1 < n,
    ensures
        forall|i: int| 0 <= i < stable_sorted(s).len() ==> #[trigger] stable_sorted(s)[i].1 < n,
        stable_sorted(s).len() == s.len(),
    decreases s.len(),
{
    if s.len() > 0 {
        lemma_stable_sorted_payloads(s.drop_last(), n);
        let t = stable_sorted(s.drop_last());
        let p = crate::sorting::first_greater(t, s.last().0) as int;
        lemma_first_greater_le(t, s.last().0);
        assert forall|i: int| 0 <= i < stable_sorted(s).len() implies #[trigger] stable_sorted(
            s,
        )[i].1 < n by {
            if i < p {
                assert(stable_sorted(s)[i] == t[i]);
            } else if i > p {
                assert(stable_sorted(s)[i] == t[i - 1]);
            }
        }
    }
}

proof fn lemma_first_greater_le(s: Seq<(u64, usize)>, k: u64)
    ensures
        crate::sorting::first_greater(s, k) <= s.len(),
    decreases s.len(),
{
    if s.len() > 0 {
        lemma_first_greater_le(s.drop_first(), k);
    }
}

proof fn lemma_numeric_order_in_bounds(es: Seq<(String, Json)>)
    ensures
        order_in_bounds(numeric_order(es), es.len()),
        numeric_order(es).len() == es.len(),
{
    lemma_stable_sorted_payloads(keyed_members(es), es.len());
}

// ---------------------------------------------------------------- skills
/// One line (and its description line) per skill on the hotbar.
pub open spec fn hud_lines(m: ResolverModel, skills: Seq<Json>) -> Seq<char>
    decreases skills.len(),
{
    if skills.len() == 0 {
        Seq::empty()
    } else {
        hud_lines(m, skills.drop_last()) + match skills.last() {
            Json::Str(id) => {
                let desc = m.skill_description(id@);
                "  - "@ + m.skill_name(id@) + "\n"@ + if desc.len() > 0 {
                    "    "@ + desc + "\n"@
                } else {
                    Seq::empty()
                }
            },
            other => "  - "@ + json_text(other) + "\n"@,
        }
    }
}

/// The member `key` of an optional object.
pub open spec fn opt_member(o: Option<Seq<(String, Json)>>, key: Seq<char>) -> Option<Json> {
    match o {
        Some(es) => member(es, key),
        None => None,
    }
}

/// `Requires {points} pts in {node}` for each requirement naming a node.
pub open spec fn skill_requirements(m: ResolverModel, tree_id: Seq<char>, reqs: Seq<Json>) -> Seq<
    Seq<char>,
>
    decreases reqs.len(),
{
    if reqs.len() == 0 {
        Seq::empty()
    } else {
        let rest = skill_requirements(m, tree_id, reqs.drop_last());
        let r = reqs.last();
        match ju64(json_get(r, "nodeId"@)) {
            Some(rid) => rest.push(
                "Requires "@ + dec(u64_or(ju64(json_get(r, "requirement"@)), 0) as nat)
                    + " pts in "@ + m.skill_node_name(tree_id, dec(rid as nat)),
            ),
            None => rest,
        }
    }
}

/// The first lines of a node entry: name, allocated and maximum points.
pub open spec fn node_head(name: Seq<char>, points: u64, max_pts: u64) -> Seq<char> {
    "  - Name: \""@ + name + "\"\n    AllocatedPoints: "@ + dec(points as nat) + "\n    MaxPoints: "@
        + dec(max_pts as nat) + "\n"@
}

/// The effect line of a node, with continuation lines indented.
pub open spec fn effect_line(desc: Seq<char>) -> Seq<char> {
    if desc.len() > 0 {
        "    Effect: \""@ + replaced(desc, '\n', "\n      "@) + "\"\n"@
    } else {
        Seq::empty()
    }
}

fn node_head_exec(name: &str, points: u64, max_pts: u64) -> (r: String)
    ensures
        r@ == node_head(name@, points, max_pts),
{
    let mut out = String::new();
    out.append("  - Name: \"");
    out.append(name);
    out.append("\"\n    AllocatedPoints: ");
    append_dec(&mut out, points);
    out.append("\n    MaxPoints: ");
    append_dec(&mut out, max_pts);
    out.append("\n");
    proof {
        assert(out@ =~= node_head(name@, points, max_pts));
    }
    out
}

fn effect_line_exec(desc: &str) -> (r: String)
    ensures
        r@ == effect_line(desc@),
{
    let mut out = String::new();
    if !desc.is_empty() {
        let padded = replace_char(desc, '\n', "\n      ");
        out.append("    Effect: \"");
        out.append(padded.as_str());
        out.append("\"\n");
    }
    proof {
        assert(out@ =~= effect_line(desc@));
    }
    out
}

/// The requirements line of a node.
pub open spec fn requirements_line(reqs: Seq<Seq<char>>) -> Seq<char> {
    if reqs.len() > 0 {
        "    Requirements: \""@ + joined(reqs, ", "@) + "\"\n"@
    } else {
        "    Requirements: None\n"@
    }
}

/// The entry of one node of a skill tree.
pub open spec fn skill_node_text(
    m: ResolverModel,
    tree_id: Seq<char>,
    selected: Option<Seq<(String, Json)>>,
    nodes: Seq<(String, Json)>,
    key: Seq<char>,
) -> Seq<char> {
    match member(nodes, key) {
        None => Seq::empty(),
        Some(node) => {
            let points = u64_or(ju64(opt_member(selected, key)), 0);
            let max_pts = u64_or(ju64(json_get(node, "maxPoints"@)), 0);
            let reqs = match jarr(json_get(node, "requirements"@)) {
                Some(a) => skill_requirements(m, tree_id, a),
                None => Seq::empty(),
            };
            node_head(m.skill_node_name(tree_id, key), points, max_pts) + requirements_line(reqs)
                + effect_line(m.skill_node_description(tree_id, key)) + "\n"@
        },
    }
}

/// The entries of the nodes at the given positions.
pub open spec fn skill_nodes_text(
    m: ResolverModel,
    tree_id: Seq<char>,
    selected: Option<Seq<(String, Json)>>,
    nodes: Seq<(String, Json)>,
    order: Seq<usize>,
) -> Seq<char>
    decreases order.len(),
{
    if order.len() == 0 {
        Seq::empty()
    } else {
        skill_nodes_text(m, tree_id, selected, nodes, order.drop_last()) + skill_node_text(
            m,
            tree_id,
            selected,
            nodes,
            nodes[order.last() as int].0@,
        )
    }
}

/// `  - {node} (Points: {points})` for each selected node.
pub open spec fn selected_skill_lines(m: ResolverModel, tree_id: Seq<char>, sel: Seq<(String, Json)>) -> Seq<
    char,
>
    decreases sel.len(),
{
    if sel.len() == 0 {
        Seq::empty()
    } else {
        selected_skill_lines(m, tree_id, sel.drop_last()) + "  - "@ + m.skill_node_name(
            tree_id,
            sel.last().0@,
        ) + " (Points: "@ + json_text(sel.last().1) + ")\n"@
    }
}

/// The section of one configured skill tree: its name, then its nodes from
/// the skill tree database in numeric order, or (without database entries)
/// the selected nodes as they come.
pub open spec fn skill_tree_text(m: ResolverModel, dump: Option<Json>, tree: Json) -> Seq<char> {
    match jstr(json_get(tree, "treeID"@)) {
        None => Seq::empty(),
        Some(id) => {
            let selected = jobj(json_get(tree, "selected"@));
            "Skill: "@ + m.skill_name(id) + "\n"@ + match jobj(jget(jget(dump, id), "nodes"@)) {
                Some(nodes) => skill_nodes_text(m, id, selected, nodes, numeric_order(nodes)),
                None => match selected {
                    Some(sel) => selected_skill_lines(m, id, sel),
                    None => Seq::empty(),
                },
            }
        },
    }
}

pub open spec fn skill_trees_text(m: ResolverModel, dump: Option<Json>, trees: Seq<Json>) -> Seq<
    char,
>
    decreases trees.len(),
{
    if trees.len() == 0 {
        Seq::empty()
    } else {
        skill_trees_text(m, dump, trees.drop_last()) + skill_tree_text(m, dump, trees.last())
    }
}

/// Configured skill trees are written one after another: the text of two
/// runs of trees is the text of the first followed by that of the second.
pub proof fn law_skill_trees_concatenate(m: ResolverModel, dump: Option<Json>, s: Seq<Json>, t: Seq<Json>)
    ensures
        skill_trees_text(m, dump, s + t) == skill_trees_text(m, dump, s) + skill_trees_text(m, dump, t),
    decreases t.len(),
{
    if t.len() == 0 {
        assert(s + t =~= s);
    } else {
        law_skill_trees_concatenate(m, dump, s, t.drop_last());
        assert((s + t).drop_last() =~= s + t.drop_last());
        assert((s + t).last() == t.last());
    }
}

/// A single configured tree is written as that tree's own section.
pub proof fn law_skill_trees_single(m: ResolverModel, dump: Option<Json>, tree: Json)
    ensures
        skill_trees_text(m, dump, seq![tree]) == skill_tree_text(m, dump, tree),
{
    assert(seq![tree].drop_last() =~= Seq::<Json>::empty());
    assert(skill_trees_text(m, dump, Seq::<Json>::empty()) == Seq::<char>::empty());
    assert(Seq::<char>::empty() + skill_tree_text(m, dump, tree) =~= skill_tree_text(m, dump, tree));
}

/// The skills section: the hotbar skills, then each configured skill tree.
pub open spec fn skills_text(build: Json, m: ResolverModel, dump: Option<Json>) -> Seq<char> {
    match jget(Some(build), "data"@) {
        Some(data) => (match jarr(json_get(data, "hud"@)) {
            Some(h) => "Active Skills (HUD):\n"@ + hud_lines(m, h),
            None => Seq::empty(),
        }) + (match jarr(json_get(data, "skillTrees"@)) {
            Some(ts) => "\n--- Skill Trees Configured ---\n"@ + skill_trees_text(m, dump, ts),
            None => Seq::empty(),
        }),
        None => "No skills data found.\n"@,
    }
}

fn append_hud_lines(out: &mut String, resolver: &Resolver, skills: &Vec<Json>)
    ensures
        final(out)@ == old(out)@ + hud_lines(resolver@, skills@),
{
    let mut i: usize = 0;
    while i < skills.len()
        invariant
            i <= skills@.len(),
            out@ == old(out)@ + hud_lines(resolver@, skills@.take(i as int)),
        decreases skills.len() - i,
    {
        proof {
            assert(skills@.take(i + 1).drop_last() =~= skills@.take(i as int));
            assert(skills@.take(i + 1).last() == skills@[i as int]);
        }
        match &skills[i] {
            Json::Str(id) => {
                let name = resolver.get_skill_name(id.as_str());
                out.append("  - ");
                out.append(name.as_str());
                out.append("\n");
                let desc = resolver.get_skill_description(id.as_str());
                if !desc.as_str().is_empty() {
                    out.append("    ");
                    out.append(desc.as_str());
                    out.append("\n");
                }
            },
            other => {
                out.append("  - ");
                append_json_text(out, other);
                out.append("\n");
            },
        }
        proof {
            assert(out@ =~= old(out)@ + hud_lines(resolver@, skills@.take(i + 1)));
        }
        i += 1;
    }
    proof {
        assert(skills@.take(skills@.len() as int) =~= skills@);
    }
}

fn skill_requirements_exec(resolver: &Resolver, tree_id: &str, reqs: &Vec<Json>) -> (r: Vec<String>)
    ensures
        views(r@) == skill_requirements(resolver@, tree_id@, reqs@),
{
    let mut out: Vec<String> = Vec::new();
    let mut i: usize = 0;
    while i < reqs.len()
        invariant
            i <= reqs@.len(),
            views(out@) == skill_requirements(resolver@, tree_id@, reqs@.take(i as int)),
        decreases reqs.len() - i,
    {
        proof {
            assert(reqs@.take(i + 1).drop_last() =~= reqs@.take(i as int));
            assert(reqs@.take(i + 1).last() == reqs@[i as int]);
        }
        let r = &reqs[i];
        if let Some(rid) = as_u64_of(r.get("nodeId")) {
            let req_pts = match as_u64_of(r.get("requirement")) {
                Some(v) => v,
                None => 0,
            };
            let rid_text = dec_text(rid);
            let r_name = resolver.get_skill_node_name(tree_id, rid_text.as_str());
            let mut line = String::new();
            line.append("Requires ");
            append_dec(&mut line, req_pts);
            line.append(" pts in ");
            line.append(r_name.as_str());
            let ghost old_out = out@;
            out.push(line);
            proof {
                assert(views(old_out.push(line)) =~= views(old_out).push(line@));
            }
        }
        proof {
            assert(views(out@) =~= skill_requirements(resolver@, tree_id@, reqs@.take(i + 1)));
        }
        i += 1;
    }
    proof {
        assert(reqs@.take(reqs@.len() as int) =~= reqs@);
    }
    out
}

fn append_requirements_line(out: &mut String, reqs: &Vec<String>)
    ensures
        final(out)@ == old(out)@ + requirements_line(views(reqs@)),
{
    if reqs.len() > 0 {
        out.append("    Requirements: \"");
        let joined_reqs = join(reqs, ", ");
        out.append(joined_reqs.as_str());
        out.append("\"\n");
    } else {
        out.append("    Requirements: None\n");
    }
    proof {
        assert(out@ =~= old(out)@ + requirements_line(views(reqs@)));
    }
}

fn opt_member_exec<'a>(o: Option<&'a Vec<(String, Json)>>, key: &str) -> (r: Option<&'a Json>)
    ensures
        opt_json(r) == opt_member(
            match o {
                Some(es) => Some(es@),
                None => None,
            },
            key@,
        ),
{
    match o {
        Some(es) => member_of(es, key),
        None => None,
    }
}

/// The member `key` of an object's members.
pub fn member_of<'a>(es: &'a Vec<(String, Json)>, key: &str) -> (r: Option<&'a Json>)
    ensures
        opt_json(r) == member(es@, key@),
{
    let k = key.to_owned();
    let mut i: usize = 0;
    assert(es@.skip(0) =~= es@);
    while i < es.len()
        invariant
            i <= es@.len(),
            k@ == key@,
            member(es@, key@) == member(es@.skip(i as int), key@),
        decreases es.len() - i,
    {
        proof {
            assert(es@.skip(i as int).drop_first() =~= es@.skip(i + 1));
        }
        if es[i].0 == k {
            assert(es@.skip(i as int)[0] == es@[i as int]);
            return Some(&es[i].1);
        }
        i += 1;
    }
    None
}

fn append_skill_node(
    out: &mut String,
    resolver: &Resolver,
    tree_id: &str,
    selected: Option<&Vec<(String, Json)>>,
    nodes: &Vec<(String, Json)>,
    key: &str,
)
    ensures
        final(out)@ == old(out)@ + skill_node_text(
            resolver@,
            tree_id@,
            match selected {
                Some(es) => Some(es@),
                None => None,
            },
            nodes@,
            key@,
        ),
{
    if let Some(node) = member_of(nodes, key) {
        let points = match as_u64_of(opt_member_exec(selected, key)) {
            Some(v) => v,
            None => 0,
        };
        let node_name = resolver.get_skill_node_name(tree_id, key);
        let max_pts = match as_u64_of(node.get("maxPoints")) {
            Some(v) => v,
            None => 0,
        };
        let reqs = match as_array_of(node.get("requirements")) {
            Some(a) => skill_requirements_exec(resolver, tree_id, a),
            None => Vec::new(),
        };
        let head = node_head_exec(node_name.as_str(), points, max_pts);
        out.append(head.as_str());
        append_requirements_line(out, &reqs);
        let node_desc = resolver.get_skill_node_description(tree_id, key);
        let effect = effect_line_exec(node_desc.as_str());
        out.append(effect.as_str());
        out.append("\n");
        proof {
            let ghost sel = match selected {
                Some(es) => Some(es@),
                None => None,
            };
            assert(views(reqs@) == match jarr(json_get(*node, "requirements"@)) {
                Some(a) => skill_requirements(resolver@, tree_id@, a),
                None => Seq::empty(),
            }) by {
                if jarr(json_get(*node, "requirements"@)) is None {
                    assert(views(reqs@) =~= Seq::<Seq<char>>::empty());
                }
            }
            assert(out@ =~= old(out)@ + skill_node_text(resolver@, tree_id@, sel, nodes@, key@));
        }
    }
}

fn append_skill_tree(out: &mut String, resolver: &Resolver, dump: Option<&Json>, tree: &Json)
    ensures
        final(out)@ == old(out)@ + skill_tree_text(resolver@, opt_json(dump), *tree),
{
    if let Some(id) = as_str_of(tree.get("treeID")) {
        let name = resolver.get_skill_name(id.as_str());
        out.append("Skill: ");
        out.append(name.as_str());
        out.append("\n");
        let ghost head = out@;
        let selected = as_object_of(tree.get("selected"));
        let ghost sel = match selected {
            Some(es) => Some(es@),
            None => None,
        };
        assert(sel == jobj(json_get(*tree, "selected"@)));
        let nodes_obj = as_object_of(get_in(get_in(dump, id.as_str()), "nodes"));
        if let Some(nodes) = nodes_obj {
            let order = numeric_order_exec(nodes);
            proof {
                lemma_numeric_order_in_bounds(nodes@);
            }
            let mut i: usize = 0;
            while i < order.len()
                invariant
                    i <= order@.len(),
                    order@ == numeric_order(nodes@),
                    order_in_bounds(order@, nodes@.len()),
                    sel == match selected {
                        Some(es) => Some(es@),
                        None => None,
                    },
                    out@ == head + skill_nodes_text(
                        resolver@,
                        id@,
                        sel,
                        nodes@,
                        order@.take(i as int),
                    ),
                decreases order.len() - i,
            {
                proof {
                    assert(order@.take(i + 1).drop_last() =~= order@.take(i as int));
                    assert(order@.take(i + 1).last() == order@[i as int]);
                }
                let j = order[i];
                append_skill_node(out, resolver, id.as_str(), selected, nodes, nodes[j].0.as_str());
                i += 1;
            }
            proof {
                assert(order@.take(order@.len() as int) =~= order@);
            }
        } else if let Some(sel_es) = selected {
            let mut i: usize = 0;
            while i < sel_es.len()
                invariant
                    i <= sel_es@.len(),
                    out@ == head + selected_skill_lines(resolver@, id@, sel_es@.take(i as int)),
                decreases sel_es.len() - i,
            {
                proof {
                    assert(sel_es@.take(i + 1).drop_last() =~= sel_es@.take(i as int));
                    assert(sel_es@.take(i + 1).last() == sel_es@[i as int]);
                }
                let node_name = resolver.get_skill_node_name(id.as_str(), sel_es[i].0.as_str());
                out.append("  - ");
                out.append(node_name.as_str());
                out.append(" (Points: ");
                append_json_text(out, &sel_es[i].1);
                out.append(")\n");
                proof {
                    assert(out@ =~= head + selected_skill_lines(resolver@, id@, sel_es@.take(i + 1)));
                }
                i += 1;
            }
            proof {
                assert(sel_es@.take(sel_es@.len() as int) =~= sel_es@);
            }
        }
        proof {
            assert(out@ =~= old(out)@ + skill_tree_text(resolver@, opt_json(dump), *tree));
        }
    }
}

/// Writes the skills section: the hotbar skills with their descriptions,
/// then every configured skill tree with its nodes (allocated and maximum
/// points, requirements, effect) in numeric node order, from the skill tree
/// database `skill_trees` when it has the tree.
pub fn write_skills(build: &Json, resolver: &Resolver, skill_trees: Option<&Json>) -> (r: String)
    ensures
        r@ == skills_text(*build, resolver@, opt_json(skill_trees)),
{
    let mut out = String::new();
    match build.get("data") {
        Some(data) => {
            if let Some(hud) = as_array_of(data.get("hud")) {
                out.append("Active Skills (HUD):\n");
                append_hud_lines(&mut out, resolver, hud);
            }
            let ghost mid = out@;
            if let Some(trees) = as_array_of(data.get("skillTrees")) {
                out.append("\n--- Skill Trees Configured ---\n");
                let ghost head = out@;
                let mut i: usize = 0;
                while i < trees.len()
                    invariant
                        i <= trees@.len(),
                        out@ == head + skill_trees_text(
                            resolver@,
                            opt_json(skill_trees),
                            trees@.take(i as int),
                        ),
                    decreases trees.len() - i,
                {
                    proof {
                        assert(trees@.take(i + 1).drop_last() =~= trees@.take(i as int));
                        assert(trees@.take(i + 1).last() == trees@[i as int]);
                    }
                    append_skill_tree(&mut out, resolver, skill_trees, &trees[i]);
                    proof {
                        assert(out@ =~= head + skill_trees_text(
                            resolver@,
                            opt_json(skill_trees),
                            trees@.take(i + 1),
                        ));
                    }
                    i += 1;
                }
                proof {
                    assert(trees@.take(trees@.len() as int) =~= trees@);
                }
            }
        },
        None => {
            out.append("No skills data found.\n");
        },
    }
    proof {
        assert(out@ =~= skills_text(*build, resolver@, opt_json(skill_trees)));
    }
    out
}

// ---------------------------------------------------------------- passives
/// The class id of the build (`data.bio.characterClass`, 255 when missing),
/// reduced to a byte.
pub open spec fn build_class_id(build: Json) -> u8 {
    u64_or(ju64(jget(jget(jget(Some(build), "data"@), "bio"@), "characterClass"@)), 255) as u8
}

/// The mastery group of a passive node (0 when missing).
pub open spec fn mastery_of(node: Json) -> u64 {
    u64_or(ju64(json_get(node, "mastery"@)), 0)
}

/// The mastery groups in order of first appearance.
pub open spec fn masteries_seen(nodes: Seq<(String, Json)>) -> Seq<u64>
    decreases nodes.len(),
{
    if nodes.len() == 0 {
        Seq::empty()
    } else {
        let seen = masteries_seen(nodes.drop_last());
        let mid = mastery_of(nodes.last().1);
        if seen.contains(mid) {
            seen
        } else {
            seen.push(mid)
        }
    }
}

/// The mastery groups in ascending order.
pub open spec fn mastery_order(nodes: Seq<(String, Json)>) -> Seq<(u64, usize)> {
    let seen = masteries_seen(nodes);
    stable_sorted(Seq::new(seen.len(), |i: int| (seen[i], 0usize)))
}

/// The positions of the nodes of one mastery group, in order.
pub open spec fn group_positions(nodes: Seq<(String, Json)>, mid: u64) -> Seq<usize>
    decreases nodes.len(),
{
    if nodes.len() == 0 {
        Seq::empty()
    } else {
        let rest = group_positions(nodes.drop_last(), mid);
        if mastery_of(nodes.last().1) == mid {
            rest.push((nodes.len() - 1) as usize)
        } else {
            rest
        }
    }
}

/// The positions of the nodes of one mastery group, in stable order of their
/// numeric keys.
pub open spec fn group_order(nodes: Seq<(String, Json)>, mid: u64) -> Seq<usize> {
    let g = group_positions(nodes, mid);
    positions(
        stable_sorted(
            Seq::new(g.len(), |i: int| (u32_or_zero(nodes[g[i] as int].0@) as u64, g[i])),
        ),
    )
}

/// A passive name; a name that is itself a `Skills.` key is replaced by the
/// resolution of the node's own name key, where it has one.
pub open spec fn resolved_passive_name(m: ResolverModel, class_id: u8, node_id: u8, node: Json) -> Seq<
    char,
> {
    let name = m.passive_name(class_id, node_id);
    if has_prefix(name, "Skills."@) {
        match jstr(json_get(node, "nodeNameKey"@)) {
            Some(k) => m.name_bypassing(k),
            None => name,
        }
    } else {
        name
    }
}

/// `Requires {points} pts in {node}` for each requirement naming a node.
pub open spec fn passive_requirement_parts(
    m: ResolverModel,
    class_id: u8,
    nodes: Seq<(String, Json)>,
    reqs: Seq<Json>,
) -> Seq<Seq<char>>
    decreases reqs.len(),
{
    if reqs.len() == 0 {
        Seq::empty()
    } else {
        let rest = passive_requirement_parts(m, class_id, nodes, reqs.drop_last());
        let r = reqs.last();
        match ju64(json_get(r, "nodeId"@)) {
            Some(rid) => {
                let r_name = match member(nodes, dec(rid as nat)) {
                    Some(req_node) => resolved_passive_name(m, class_id, rid as u8, req_node),
                    None => "Node "@ + dec(rid as nat),
                };
                rest.push(
                    "Requires "@ + dec(u64_or(ju64(json_get(r, "requirement"@)), 0) as nat)
                        + " pts in "@ + r_name,
                )
            },
            None => rest,
        }
    }
}

/// The requirements of a passive node: points in its mastery, then nodes.
pub open spec fn passive_requirements(
    m: ResolverModel,
    class_id: u8,
    nodes: Seq<(String, Json)>,
    node: Json,
) -> Seq<Seq<char>> {
    let mastery_req = u64_or(ju64(json_get(node, "masteryRequirement"@)), 0);
    let base: Seq<Seq<char>> = if mastery_req > 0 {
        seq!["Requires "@ + dec(mastery_req as nat) + " points in mastery"@]
    } else {
        Seq::empty()
    };
    base + match jarr(json_get(node, "requirements"@)) {
        Some(a) => passive_requirement_parts(m, class_id, nodes, a),
        None => Seq::empty(),
    }
}

pub open spec fn no_scaling(stat: Json) -> bool {
    match jbool(json_get(stat, "noScaling"@)) {
        Some(b) => b,
        None => false,
    }
}

/// What a stat of a passive node does.
pub open spec fn stat_effect(m: ResolverModel, stat: Json) -> Seq<char> {
    let val = str_or(jstr(json_get(stat, "value"@)), "?"@);
    match jstr(json_get(stat, "statNameKey"@)) {
        Some(sk) => {
            let resolved = m.name_bypassing(sk);
            if val == "?"@ {
                resolved
            } else {
                val + " "@ + resolved
            }
        },
        None => val + " to property #"@ + dec(u64_or(ju64(json_get(stat, "property"@)), 0) as nat),
    }
}

/// `{effect} per point` for each stat that scales.
pub open spec fn scaling_effects(m: ResolverModel, stats: Seq<Json>) -> Seq<Seq<char>>
    decreases stats.len(),
{
    if stats.len() == 0 {
        Seq::empty()
    } else {
        let rest = scaling_effects(m, stats.drop_last());
        if no_scaling(stats.last()) {
            rest
        } else {
            rest.push(stat_effect(m, stats.last()) + " per point"@)
        }
    }
}

/// The point threshold of a stat that does not scale: its own, else the
/// node's, else the node's maximum.
pub open spec fn stat_threshold(stat: Json, node: Json, max_pts: u64) -> u64 {
    match ju64(json_get(stat, "noScalingPointThreshold"@)) {
        Some(t) => t,
        None => u64_or(ju64(json_get(node, "noScalingPointThreshold"@)), max_pts),
    }
}

/// `At {threshold} pts: {effect}` for each stat that does not scale.
pub open spec fn breakpoint_effects(m: ResolverModel, node: Json, max_pts: u64, stats: Seq<Json>) -> Seq<
    Seq<char>,
>
    decreases stats.len(),
{
    if stats.len() == 0 {
        Seq::empty()
    } else {
        let rest = breakpoint_effects(m, node, max_pts, stats.drop_last());
        if no_scaling(stats.last()) {
            rest.push(
                "At "@ + dec(stat_threshold(stats.last(), node, max_pts) as nat) + " pts: "@
                    + stat_effect(m, stats.last()),
            )
        } else {
            rest
        }
    }
}

/// `      - "{part}"` lines.
pub open spec fn quoted_lines(parts: Seq<Seq<char>>) -> Seq<char>
    decreases parts.len(),
{
    if parts.len() == 0 {
        Seq::empty()
    } else {
        quoted_lines(parts.drop_last()) + "      - \""@ + parts.last() + "\"\n"@
    }
}

/// A titled block of quoted lines, or nothing when there are none.
pub open spec fn titled_block(title: Seq<char>, parts: Seq<Seq<char>>) -> Seq<char> {
    if parts.len() > 0 {
        title + quoted_lines(parts)
    } else {
        Seq::empty()
    }
}

pub open spec fn node_stats(node: Json) -> Seq<Json> {
    match jarr(json_get(node, "stats"@)) {
        Some(a) => a,
        None => Seq::empty(),
    }
}

/// The entry of a passive node whose key reads as a node id.
pub open spec fn passive_node_body(
    m: ResolverModel,
    class_id: u8,
    selected: Option<Seq<(String, Json)>>,
    nodes: Seq<(String, Json)>,
    key: Seq<char>,
    node: Json,
    node_id: u8,
) -> Seq<char> {
    let points = u64_or(ju64(opt_member(selected, key)), 0);
    let max_pts = u64_or(ju64(json_get(node, "maxPoints"@)), 0);
    node_head(resolved_passive_name(m, class_id, node_id, node), points, max_pts)
        + requirements_line(passive_requirements(m, class_id, nodes, node)) + titled_block(
        "    ScalingEffects:\n"@,
        scaling_effects(m, node_stats(node)),
    ) + titled_block("    Breakpoints:\n"@, breakpoint_effects(m, node, max_pts, node_stats(node)))
        + "\n"@
}

/// The entry of one passive node (nothing when its key is not a node id).
pub open spec fn passive_node_text(
    m: ResolverModel,
    class_id: u8,
    selected: Option<Seq<(String, Json)>>,
    nodes: Seq<(String, Json)>,
    key: Seq<char>,
) -> Seq<char> {
    match member(nodes, key) {
        None => Seq::empty(),
        Some(node) => match parse_unsigned(key, 255) {
            None => Seq::empty(),
            Some(nid) => passive_node_body(m, class_id, selected, nodes, key, node, nid as u8),
        },
    }
}

pub open spec fn passive_nodes_text(
    m: ResolverModel,
    class_id: u8,
    selected: Option<Seq<(String, Json)>>,
    nodes: Seq<(String, Json)>,
    order: Seq<usize>,
) -> Seq<char>
    decreases order.len(),
{
    if order.len() == 0 {
        Seq::empty()
    } else {
        passive_nodes_text(m, class_id, selected, nodes, order.drop_last()) + passive_node_text(
            m,
            class_id,
            selected,
            nodes,
            nodes[order.last() as int].0@,
        )
    }
}

/// One mastery group: its name, then its nodes.
pub open spec fn mastery_group_text(
    m: ResolverModel,
    class_id: u8,
    selected: Option<Seq<(String, Json)>>,
    nodes: Seq<(String, Json)>,
    mid: u64,
) -> Seq<char> {
    "\n  ["@ + mastery_group_name(class_id, mid) + "]\n"@ + passive_nodes_text(
        m,
        class_id,
        selected,
        nodes,
        group_order(nodes, mid),
    )
}

pub open spec fn mastery_groups_text(
    m: ResolverModel,
    class_id: u8,
    selected: Option<Seq<(String, Json)>>,
    nodes: Seq<(String, Json)>,
    mids: Seq<(u64, usize)>,
) -> Seq<char>
    decreases mids.len(),
{
    if mids.len() == 0 {
        Seq::empty()
    } else {
        mastery_groups_text(m, class_id, selected, nodes, mids.drop_last()) + mastery_group_text(
            m,
            class_id,
            selected,
            nodes,
            mids.last().0,
        )
    }
}

/// `  - Node {key} (Points: {points})` for each selected node.
pub open spec fn selected_passive_lines(sel: Seq<(String, Json)>) -> Seq<char>
    decreases sel.len(),
{
    if sel.len() == 0 {
        Seq::empty()
    } else {
        selected_passive_lines(sel.drop_last()) + "  - Node "@ + sel.last().0@ + " (Points: "@
            + json_text(sel.last().1) + ")\n"@
    }
}

/// The element at position `i` of an optional array.
pub open spec fn opt_index(a: Option<Seq<Json>>, i: int) -> Option<Json> {
    match a {
        Some(v) => if 0 <= i < v.len() {
            Some(v[i])
        } else {
            None
        },
        None => None,
    }
}

/// The passive nodes of a class in the passive tree database.
pub open spec fn class_tree_nodes(dump: Option<Json>, class_id: u8) -> Option<Seq<(String, Json)>> {
    jobj(
        jget(
            jget(opt_index(jarr(jget(dump, "trees"@)), class_id as int), "characterTree"@),
            "nodes"@,
        ),
    )
}

/// The passives section: the class passive tree from the database grouped by
/// mastery (groups ascending, nodes in numeric order), or (without the
/// database) the selected nodes as they come.
pub open spec fn passives_text(build: Json, m: ResolverModel, dump: Option<Json>) -> Seq<char> {
    let class_id = build_class_id(build);
    match jget(jget(Some(build), "data"@), "charTree"@) {
        None => Seq::empty(),
        Some(ct) => {
            let selected = jobj(json_get(ct, "selected"@));
            "\n--- Class Passives DAG ---\n"@ + match class_tree_nodes(dump, class_id) {
                Some(nodes) => mastery_groups_text(
                    m,
                    class_id,
                    selected,
                    nodes,
                    mastery_order(nodes),
                ),
                None => match selected {
                    Some(sel) => selected_passive_lines(sel),
                    None => Seq::empty(),
                },
            }
        },
    }
}

/// The passives section reads the passive tree of the build's class: two
/// tree databases whose `trees` entries at the build's class id are equal
/// give the same section, whatever their other trees hold.
pub proof fn law_passives_read_the_build_class_tree(
    build: Json,
    m: ResolverModel,
    d1: Json,
    d2: Json,
    t1: Seq<Json>,
    t2: Seq<Json>,
)
    requires
        jarr(json_get(d1, "trees"@)) == Some(t1),
        jarr(json_get(d2, "trees"@)) == Some(t2),
        (ju64(jget(jget(jget(Some(build), "data"@), "bio"@), "characterClass"@)) matches Some(c)
            && c < 256 && c < t1.len() && c < t2.len() && t1[c as int] == t2[c as int]),
    ensures
        passives_text(build, m, Some(d1)) == passives_text(build, m, Some(d2)),
{
    let c = build_class_id(build);
    let c64 = ju64(jget(jget(jget(Some(build), "data"@), "bio"@), "characterClass"@))->0;
    assert(c as int == c64 as int);
    assert(jget(Some(d1), "trees"@) == json_get(d1, "trees"@));
    assert(jget(Some(d2), "trees"@) == json_get(d2, "trees"@));
    assert(opt_index(jarr(jget(Some(d1), "trees"@)), c as int) == Some(t1[c as int]));
    assert(opt_index(jarr(jget(Some(d2), "trees"@)), c as int) == Some(t2[c as int]));
    assert(class_tree_nodes(Some(d1), c) == class_tree_nodes(Some(d2), c));
}

fn masteries_seen_exec(nodes: &Vec<(String, Json)>) -> (r: Vec<u64>)
    ensures
        r@ == masteries_seen(nodes@),
{
    let mut seen: Vec<u64> = Vec::new();
    let mut i: usize = 0;
    while i < nodes.len()
        invariant
            i <= nodes@.len(),
            seen@ == masteries_seen(nodes@.take(i as int)),
        decreases nodes.len() - i,
    {
        proof {
            assert(nodes@.take(i + 1).drop_last() =~= nodes@.take(i as int));
            assert(nodes@.take(i + 1).last() == nodes@[i as int]);
        }
        let mid = match as_u64_of(nodes[i].1.get("mastery")) {
            Some(v) => v,
            None => 0,
        };
        let mut found = false;
        let mut j: usize = 0;
        while j < seen.len()
            invariant
                j <= seen@.len(),
                found == (exists|k: int| 0 <= k < j && seen@[k] == mid),
            decreases seen.len() - j,
        {
            if seen[j] == mid {
                found = true;
            }
            j += 1;
        }
        proof {
            if found {
                let k = choose|k: int| 0 <= k < j && seen@[k] == mid;
                assert(seen@.contains(mid));
            } else {
                assert(!seen@.contains(mid));
            }
        }
        if !found {
            seen.push(mid);
        }
        i += 1;
    }
    proof {
        assert(nodes@.take(nodes@.len() as int) =~= nodes@);
    }
    seen
}

fn mastery_order_exec(nodes: &Vec<(String, Json)>) -> (r: Vec<(u64, usize)>)
    ensures
        r@ == mastery_order(nodes@),
{
    let seen = masteries_seen_exec(nodes);
    let mut keyed: Vec<(u64, usize)> = Vec::new();
    let mut i: usize = 0;
    while i < seen.len()
        invariant
            i <= seen@.len(),
            keyed@ =~= Seq::new(i as nat, |k: int| (seen@[k], 0usize)),
        decreases seen.len() - i,
    {
        keyed.push((seen[i], 0));
        i += 1;
        proof {
            assert(keyed@ =~= Seq::new(i as nat, |k: int| (seen@[k], 0usize)));
        }
    }
    sort_stable(&keyed)
}

proof fn lemma_group_positions_bounds(nodes: Seq<(String, Json)>, mid: u64)
    ensures
        forall|i: int| 0 <= i < group_positions(nodes, mid).len() ==> #[trigger] group_positions(
            nodes,
            mid,
        )[i] < nodes.len(),
    decreases nodes.len(),
{
    if nodes.len() > 0 {
        lemma_group_positions_bounds(nodes.drop_last(), mid);
        let rest = group_positions(nodes.drop_last(), mid);
        assert forall|i: int| 0 <= i < group_positions(nodes, mid).len() implies #[trigger] group_positions(
            nodes,
            mid,
        )[i] < nodes.len() by {
            if i < rest.len() {
                assert(group_positions(nodes, mid)[i] == rest[i]);
            }
        }
    }
}

fn group_order_exec(nodes: &Vec<(String, Json)>, mid: u64) -> (r: Vec<usize>)
    ensures
        r@ == group_order(nodes@, mid),
        order_in_bounds(r@, nodes@.len()),
{
    let mut g: Vec<usize> = Vec::new();
    let mut i: usize = 0;
    while i < nodes.len()
        invariant
            i <= nodes@.len(),
            g@ == group_positions(nodes@.take(i as int), mid),
        decreases nodes.len() - i,
    {
        proof {
            assert(nodes@.take(i + 1).drop_last() =~= nodes@.take(i as int));
            assert(nodes@.take(i + 1).last() == nodes@[i as int]);
        }
        let m = match as_u64_of(nodes[i].1.get("mastery")) {
            Some(v) => v,
            None => 0,
        };
        if m == mid {
            g.push(i);
        }
        i += 1;
    }
    proof {
        assert(nodes@.take(nodes@.len() as int) =~= nodes@);
        lemma_group_positions_bounds(nodes@, mid);
    }
    let ghost gs = g@;
    let mut keyed: Vec<(u64, usize)> = Vec::new();
    let mut i: usize = 0;
    while i < g.len()
        invariant
            i <= g@.len(),
            g@ == gs,
            g@ == group_positions(nodes@, mid),
            forall|k: int| 0 <= k < g@.len() ==> #[trigger] g@[k] < nodes@.len(),
            keyed@ =~= Seq::new(
                i as nat,
                |k: int| (u32_or_zero(nodes@[g@[k] as int].0@) as u64, g@[k]),
            ),
        decreases g.len() - i,
    {
        let j = g[i];
        keyed.push((parse_u32_or_zero(nodes[j].0.as_str()) as u64, j));
        i += 1;
        proof {
            assert(keyed@ =~= Seq::new(
                i as nat,
                |k: int| (u32_or_zero(nodes@[g@[k] as int].0@) as u64, g@[k]),
            ));
        }
    }
    let sorted = sort_stable(&keyed);
    proof {
        lemma_stable_sorted_payloads(keyed@, nodes@.len());
    }
    let r = positions_exec(&sorted);
    r
}

fn resolved_passive_name_exec(resolver: &Resolver, class_id: u8, node_id: u8, node: &Json) -> (r: String)
    ensures
        r@ == resolved_passive_name(resolver@, class_id, node_id, *node),
{
    let name = resolver.get_passive_name(class_id, node_id);
    if starts_with(name.as_str(), "Skills.") {
        if let Some(k) = as_str_of(node.get("nodeNameKey")) {
            return resolver.get_skill_name_bypassing(k.as_str());
        }
    }
    name
}

fn passive_requirements_exec(
    resolver: &Resolver,
    class_id: u8,
    nodes: &Vec<(String, Json)>,
    node: &Json,
) -> (r: Vec<String>)
    ensures
        views(r@) == passive_requirements(resolver@, class_id, nodes@, *node),
{
    let mut out: Vec<String> = Vec::new();
    let mastery_req = match as_u64_of(node.get("masteryRequirement")) {
        Some(v) => v,
        None => 0,
    };
    if mastery_req > 0 {
        let mut line = String::new();
        line.append("Requires ");
        append_dec(&mut line, mastery_req);
        line.append(" points in mastery");
        out.push(line);
        proof {
            assert(views(out@) =~= seq![line@]);
        }
    }
    let ghost base = views(out@);
    assert(base == (if mastery_req > 0 {
        seq!["Requires "@ + dec(mastery_req as nat) + " points in mastery"@]
    } else {
        Seq::<Seq<char>>::empty()
    })) by {
        if mastery_req == 0 {
            assert(views(out@) =~= Seq::<Seq<char>>::empty());
        } else {
            assert(out@[0]@ =~= "Requires "@ + dec(mastery_req as nat) + " points in mastery"@);
        }
    }
    if let Some(reqs) = as_array_of(node.get("requirements")) {
        let mut i: usize = 0;
        while i < reqs.len()
            invariant
                i <= reqs@.len(),
                views(out@) == base + passive_requirement_parts(
                    resolver@,
                    class_id,
                    nodes@,
                    reqs@.take(i as int),
                ),
            decreases reqs.len() - i,
        {
            proof {
                assert(reqs@.take(i + 1).drop_last() =~= reqs@.take(i as int));
                assert(reqs@.take(i + 1).last() == reqs@[i as int]);
            }
            let r = &reqs[i];
            if let Some(rid) = as_u64_of(r.get("nodeId")) {
                let req_pts = match as_u64_of(r.get("requirement")) {
                    Some(v) => v,
                    None => 0,
                };
                let rid_text = dec_text(rid);
                let r_name = match member_of(nodes, rid_text.as_str()) {
                    Some(req_node) => resolved_passive_name_exec(resolver, class_id, rid as u8, req_node),
                    None => {
                        let mut n = String::new();
                        n.append("Node ");
                        n.append(rid_text.as_str());
                        n
                    },
                };
                let mut line = String::new();
                line.append("Requires ");
                append_dec(&mut line, req_pts);
                line.append(" pts in ");
                line.append(r_name.as_str());
                let ghost old_out = out@;
                out.push(line);
                proof {
                    assert(views(old_out.push(line)) =~= views(old_out).push(line@));
                }
            }
            proof {
                assert(views(out@) =~= base + passive_requirement_parts(
                    resolver@,
                    class_id,
                    nodes@,
                    reqs@.take(i + 1),
                ));
            }
            i += 1;
        }
        proof {
            assert(reqs@.take(reqs@.len() as int) =~= reqs@);
        }
    } else {
        proof {
            assert(views(out@) =~= base + Seq::<Seq<char>>::empty());
        }
    }
    out
}

fn stat_effect_exec(resolver: &Resolver, stat: &Json) -> (r: String)
    ensures
        r@ == stat_effect(resolver@, *stat),
{
    let val: String = match as_str_of(stat.get("value")) {
        Some(v) => v.clone(),
        None => "?".to_owned(),
    };
    match as_str_of(stat.get("statNameKey")) {
        Some(sk) => {
            let resolved = resolver.get_skill_name_bypassing(sk.as_str());
            if str_eq(val.as_str(), "?") {
                resolved
            } else {
                let mut out = String::new();
                out.append(val.as_str());
                out.append(" ");
                out.append(resolved.as_str());
                proof {
                    assert(out@ =~= val@ + " "@ + resolved@);
                }
                out
            }
        },
        None => {
            let mut out = String::new();
            out.append(val.as_str());
            out.append(" to property #");
            let prop = match as_u64_of(stat.get("property")) {
                Some(v) => v,
                None => 0,
            };
            append_dec(&mut out, prop);
            proof {
                assert(out@ =~= val@ + " to property #"@ + dec(prop as nat));
            }
            out
        },
    }
}

fn append_titled_block(out: &mut String, title: &str, parts: &Vec<String>)
    ensures
        final(out)@ == old(out)@ + titled_block(title@, views(parts@)),
{
    if parts.len() > 0 {
        out.append(title);
        let ghost head = out@;
        let mut i: usize = 0;
        while i < parts.len()
            invariant
                i <= parts@.len(),
                out@ == head + quoted_lines(views(parts@).take(i as int)),
            decreases parts.len() - i,
        {
            proof {
                assert(views(parts@).take(i + 1).drop_last() =~= views(parts@).take(i as int));
                assert(views(parts@).take(i + 1).last() == parts@[i as int]@);
            }
            out.append("      - \"");
            out.append(parts[i].as_str());
            out.append("\"\n");
            proof {
                assert(out@ =~= head + quoted_lines(views(parts@).take(i + 1)));
            }
            i += 1;
        }
        proof {
            assert(views(parts@).take(parts@.len() as int) =~= views(parts@));
        }
    }
    proof {
        assert(out@ =~= old(out)@ + titled_block(title@, views(parts@)));
    }
}

fn stat_effects_exec(resolver: &Resolver, node: &Json, max_pts: u64) -> (r: (Vec<String>, Vec<String>))
    ensures
        views(r.0@) == scaling_effects(resolver@, node_stats(*node)),
        views(r.1@) == breakpoint_effects(resolver@, *node, max_pts, node_stats(*node)),
{
    let mut scaling: Vec<String> = Vec::new();
    let mut breakpoints: Vec<String> = Vec::new();
    if let Some(stats) = as_array_of(node.get("stats")) {
        let mut i: usize = 0;
        while i < stats.len()
            invariant
                i <= stats@.len(),
                stats@ == node_stats(*node),
                views(scaling@) == scaling_effects(resolver@, stats@.take(i as int)),
                views(breakpoints@) == breakpoint_effects(
                    resolver@,
                    *node,
                    max_pts,
                    stats@.take(i as int),
                ),
            decreases stats.len() - i,
        {
            proof {
                assert(stats@.take(i + 1).drop_last() =~= stats@.take(i as int));
                assert(stats@.take(i + 1).last() == stats@[i as int]);
            }
            let stat = &stats[i];
            let no_scaling = match as_bool_of(stat.get("noScaling")) {
                Some(b) => b,
                None => false,
            };
            let effect = stat_effect_exec(resolver, stat);
            if no_scaling {
                let threshold = match as_u64_of(stat.get("noScalingPointThreshold")) {
                    Some(t) => t,
                    None => match as_u64_of(node.get("noScalingPointThreshold")) {
                        Some(t) => t,
                        None => max_pts,
                    },
                };
                let mut line = String::new();
                line.append("At ");
                append_dec(&mut line, threshold);
                line.append(" pts: ");
                line.append(effect.as_str());
                let ghost old_b = breakpoints@;
                breakpoints.push(line);
                proof {
                    assert(views(old_b.push(line)) =~= views(old_b).push(line@));
                    assert(line@ =~= "At "@ + dec(stat_threshold(*stat, *node, max_pts) as nat)
                        + " pts: "@ + stat_effect(resolver@, *stat));
                }
            } else {
                let mut line = String::new();
                line.append(effect.as_str());
                line.append(" per point");
                let ghost old_s = scaling@;
                scaling.push(line);
                proof {
                    assert(views(old_s.push(line)) =~= views(old_s).push(line@));
                }
            }
            i += 1;
        }
        proof {
            assert(stats@.take(stats@.len() as int) =~= stats@);
        }
    } else {
        proof {
            assert(views(scaling@) =~= Seq::<Seq<char>>::empty());
            assert(views(breakpoints@) =~= Seq::<Seq<char>>::empty());
        }
    }
    (scaling, breakpoints)
}

fn append_passive_node(
    out: &mut String,
    resolver: &Resolver,
    class_id: u8,
    selected: Option<&Vec<(String, Json)>>,
    nodes: &Vec<(String, Json)>,
    key: &str,
)
    ensures
        final(out)@ == old(out)@ + passive_node_text(
            resolver@,
            class_id,
            match selected {
                Some(es) => Some(es@),
                None => None,
            },
            nodes@,
            key@,
        ),
{
    if let Some(node) = member_of(nodes, key) {
        if let Some(node_id) = parse_u8(key) {
            let p = match as_u64_of(opt_member_exec(selected, key)) {
                Some(v) => v,
                None => 0,
            };
            let name = resolved_passive_name_exec(resolver, class_id, node_id, node);
            let max_pts = match as_u64_of(node.get("maxPoints")) {
                Some(v) => v,
                None => 0,
            };
            let head = node_head_exec(name.as_str(), p, max_pts);
            out.append(head.as_str());
            let reqs = passive_requirements_exec(resolver, class_id, nodes, node);
            append_requirements_line(out, &reqs);
            let (scaling, breakpoints) = stat_effects_exec(resolver, node, max_pts);
            append_titled_block(out, "    ScalingEffects:\n", &scaling);
            append_titled_block(out, "    Breakpoints:\n", &breakpoints);
            out.append("\n");
        }
    }
}

fn append_passive_nodes(
    out: &mut String,
    resolver: &Resolver,
    class_id: u8,
    selected: Option<&Vec<(String, Json)>>,
    nodes: &Vec<(String, Json)>,
    order: &Vec<usize>,
)
    requires
        order_in_bounds(order@, nodes@.len()),
    ensures
        final(out)@ == old(out)@ + passive_nodes_text(
            resolver@,
            class_id,
            match selected {
                Some(es) => Some(es@),
                None => None,
            },
            nodes@,
            order@,
        ),
{
    let ghost sel = match selected {
        Some(es) => Some(es@),
        None => None,
    };
    let mut i: usize = 0;
    while i < order.len()
        invariant
            i <= order@.len(),
            order_in_bounds(order@, nodes@.len()),
            sel == match selected {
                Some(es) => Some(es@),
                None => None,
            },
            out@ == old(out)@ + passive_nodes_text(
                resolver@,
                class_id,
                sel,
                nodes@,
                order@.take(i as int),
            ),
        decreases order.len() - i,
    {
        proof {
            assert(order@.take(i + 1).drop_last() =~= order@.take(i as int));
            assert(order@.take(i + 1).last() == order@[i as int]);
        }
        let j = order[i];
        append_passive_node(out, resolver, class_id, selected, nodes, nodes[j].0.as_str());
        i += 1;
    }
    proof {
        assert(order@.take(order@.len() as int) =~= order@);
    }
}

/// Writes the passives section: the class passive tree from the passive tree
/// database `char_trees`, grouped by mastery (groups ascending, nodes in
/// numeric order) with allocated and maximum points, requirements, scaling
/// effects and breakpoints; without the database, the selected nodes.
pub fn write_passives(build: &Json, resolver: &Resolver, char_trees: Option<&Json>) -> (r: String)
    ensures
        r@ == passives_text(*build, resolver@, opt_json(char_trees)),
{
    #[verifier::truncate]
    let class_id = match as_u64_of(get_in(get_in(build.get("data"), "bio"), "characterClass")) {
        Some(v) => v,
        None => 255,
    } as u8;
    let mut out = String::new();
    if let Some(char_tree) = get_in(build.get("data"), "charTree") {
        out.append("\n--- Class Passives DAG ---\n");
        let ghost head = out@;
        let selected = as_object_of(char_tree.get("selected"));
        let ghost sel = match selected {
            Some(es) => Some(es@),
            None => None,
        };
        assert(sel == jobj(json_get(*char_tree, "selected"@)));
        let nodes_obj = as_object_of(
            get_in(
                get_in(index_in(as_array_of_opt(get_in(char_trees, "trees")), class_id as usize), "characterTree"),
                "nodes",
            ),
        );
        if let Some(nodes) = nodes_obj {
            let mids = mastery_order_exec(nodes);
            let mut i: usize = 0;
            while i < mids.len()
                invariant
                    i <= mids@.len(),
                    mids@ == mastery_order(nodes@),
                    sel == match selected {
                        Some(es) => Some(es@),
                        None => None,
                    },
                    out@ == head + mastery_groups_text(
                        resolver@,
                        class_id,
                        sel,
                        nodes@,
                        mids@.take(i as int),
                    ),
                decreases mids.len() - i,
            {
                proof {
                    assert(mids@.take(i + 1).drop_last() =~= mids@.take(i as int));
                    assert(mids@.take(i + 1).last() == mids@[i as int]);
                }
                let mid = mids[i].0;
                let ghost before = out@;
                out.append("\n  [");
                out.append(get_mastery_name(class_id, mid));
                out.append("]\n");
                let order = group_order_exec(nodes, mid);
                append_passive_nodes(&mut out, resolver, class_id, selected, nodes, &order);
                proof {
                    assert(out@ =~= before + mastery_group_text(resolver@, class_id, sel, nodes@, mid));
                    assert(out@ =~= head + mastery_groups_text(
                        resolver@,
                        class_id,
                        sel,
                        nodes@,
                        mids@.take(i + 1),
                    ));
                }
                i += 1;
            }
            proof {
                assert(mids@.take(mids@.len() as int) =~= mids@);
            }
        } else if let Some(sel_es) = selected {
            let mut i: usize = 0;
            while i < sel_es.len()
                invariant
                    i <= sel_es@.len(),
                    out@ == head + selected_passive_lines(sel_es@.take(i as int)),
                decreases sel_es.len() - i,
            {
                proof {
                    assert(sel_es@.take(i + 1).drop_last() =~= sel_es@.take(i as int));
                    assert(sel_es@.take(i + 1).last() == sel_es@[i as int]);
                }
                out.append("  - Node ");
                out.append(sel_es[i].0.as_str());
                out.append(" (Points: ");
                append_json_text(&mut out, &sel_es[i].1);
                out.append(")\n");
                proof {
                    assert(out@ =~= head + selected_passive_lines(sel_es@.take(i + 1)));
                }
                i += 1;
            }
            proof {
                assert(sel_es@.take(sel_es@.len() as int) =~= sel_es@);
            }
        }
    }
    proof {
        assert(out@ =~= passives_text(*build, resolver@, opt_json(char_trees)));
    }
    out
}

/// An optional array by reference, as an optional value.
fn as_array_of_opt<'a>(o: Option<&'a Json>) -> (r: Option<&'a Json>)
    ensures
        opt_json(r) == match jarr(opt_json(o)) {
            Some(_) => opt_json(o),
            None => None,
        },
{
    match o {
        Some(Json::Array(_)) => o,
        _ => None,
    }
}

// ---------------------------------------------------------------- laws

/// The hotbar lines come one entry after another, in hotbar order.
/// The result for two runs joined is the results joined.
pub proof fn law_hud_lines_concatenate(m: ResolverModel, s: Seq<Json>, t: Seq<Json>)
    ensures
        hud_lines(m, s + t) == hud_lines(m, s) + hud_lines(m, t),
    decreases t.len(),
{
    if t.len() == 0 {
        assert(s + t =~= s);
        assert(hud_lines(m, s) + hud_lines(m, t) =~= hud_lines(m, s));
    } else {
        law_hud_lines_concatenate(m, s, t.drop_last());
        assert((s + t).drop_last() =~= s + t.drop_last());
        assert((s + t).last() == t.last());
        assert(hud_lines(m, s + t) =~= hud_lines(m, s) + hud_lines(m, t));
    }
}

/// A skill node lists its requirements one after another, in order.
/// The result for two runs joined is the results joined.
pub proof fn law_skill_requirements_concatenate(m: ResolverModel, tree_id: Seq<char>, s: Seq<Json>, t: Seq<Json>)
    ensures
        skill_requirements(m, tree_id, s + t) == skill_requirements(m, tree_id, s) + skill_requirements(m, tree_id, t),
    decreases t.len(),
{
    if t.len() == 0 {
        assert(s + t =~= s);
        assert(skill_requirements(m, tree_id, s) + skill_requirements(m, tree_id, t) =~= skill_requirements(m, tree_id, s));
    } else {
        law_skill_requirements_concatenate(m, tree_id, s, t.drop_last());
        assert((s + t).drop_last() =~= s + t.drop_last());
        assert((s + t).last() == t.last());
        assert(skill_requirements(m, tree_id, s + t) =~= skill_requirements(m, tree_id, s) + skill_requirements(m, tree_id, t));
    }
}

/// The nodes of a skill tree are written one after another, in the given order.
/// The result for two runs joined is the results joined.
pub proof fn law_skill_nodes_text_concatenate(m: ResolverModel, tree_id: Seq<char>, selected: Option<Seq<(String, Json)>>, nodes: Seq<(String, Json)>, s: Seq<usize>, t: Seq<usize>)
    ensures
        skill_nodes_text(m, tree_id, selected, nodes, s + t) == skill_nodes_text(m, tree_id, selected, nodes, s) + skill_nodes_text(m, tree_id, selected, nodes, t),
    decreases t.len(),
{
    if t.len() == 0 {
        assert(s + t =~= s);
        assert(skill_nodes_text(m, tree_id, selected, nodes, s) + skill_nodes_text(m, tree_id, selected, nodes, t) =~= skill_nodes_text(m, tree_id, selected, nodes, s));
    } else {
        law_skill_nodes_text_concatenate(m, tree_id, selected, nodes, s, t.drop_last());
        assert((s + t).drop_last() =~= s + t.drop_last());
        assert((s + t).last() == t.last());
        assert(skill_nodes_text(m, tree_id, selected, nodes, s + t) =~= skill_nodes_text(m, tree_id, selected, nodes, s) + skill_nodes_text(m, tree_id, selected, nodes, t));
    }
}

/// Without the tree database, the selected nodes of a skill tree are listed one after another.
/// The result for two runs joined is the results joined.
pub proof fn law_selected_skill_lines_concatenate(m: ResolverModel, tree_id: Seq<char>, s: Seq<(String, Json)>, t: Seq<(String, Json)>)
    ensures
        selected_skill_lines(m, tree_id, s + t) == selected_skill_lines(m, tree_id, s) + selected_skill_lines(m, tree_id, t),
    decreases t.len(),
{
    if t.len() == 0 {
        assert(s + t =~= s);
        assert(selected_skill_lines(m, tree_id, s) + selected_skill_lines(m, tree_id, t) =~= selected_skill_lines(m, tree_id, s));
    } else {
        law_selected_skill_lines_concatenate(m, tree_id, s, t.drop_last());
        assert((s + t).drop_last() =~= s + t.drop_last());
        assert((s + t).last() == t.last());
        assert(selected_skill_lines(m, tree_id, s + t) =~= selected_skill_lines(m, tree_id, s) + selected_skill_lines(m, tree_id, t));
    }
}

/// A passive node lists its node requirements one after another, in order.
/// The result for two runs joined is the results joined.
pub proof fn law_passive_requirement_parts_concatenate(m: ResolverModel, class_id: u8, nodes: Seq<(String, Json)>, s: Seq<Json>, t: Seq<Json>)
    ensures
        passive_requirement_parts(m, class_id, nodes, s + t) == passive_requirement_parts(m, class_id, nodes, s) + passive_requirement_parts(m, class_id, nodes, t),
    decreases t.len(),
{
    if t.len() == 0 {
        assert(s + t =~= s);
        assert(passive_requirement_parts(m, class_id, nodes, s) + passive_requirement_parts(m, class_id, nodes, t) =~= passive_requirement_parts(m, class_id, nodes, s));
    } else {
        law_passive_requirement_parts_concatenate(m, class_id, nodes, s, t.drop_last());
        assert((s + t).drop_last() =~= s + t.drop_last());
        assert((s + t).last() == t.last());
        assert(passive_requirement_parts(m, class_id, nodes, s + t) =~= passive_requirement_parts(m, class_id, nodes, s) + passive_requirement_parts(m, class_id, nodes, t));
    }
}

/// The scaling effects of a node come one per scaling stat, in order.
/// The result for two runs joined is the results joined.
pub proof fn law_scaling_effects_concatenate(m: ResolverModel, s: Seq<Json>, t: Seq<Json>)
    ensures
        scaling_effects(m, s + t) == scaling_effects(m, s) + scaling_effects(m, t),
    decreases t.len(),
{
    if t.len() == 0 {
        assert(s + t =~= s);
        assert(scaling_effects(m, s) + scaling_effects(m, t) =~= scaling_effects(m, s));
    } else {
        law_scaling_effects_concatenate(m, s, t.drop_last());
        assert((s + t).drop_last() =~= s + t.drop_last());
        assert((s + t).last() == t.last());
        assert(scaling_effects(m, s + t) =~= scaling_effects(m, s) + scaling_effects(m, t));
    }
}

/// The breakpoints of a node come one per stat that does not scale, in order.
/// The result for two runs joined is the results joined.
pub proof fn law_breakpoint_effects_concatenate(m: ResolverModel, node: Json, max_pts: u64, s: Seq<Json>, t: Seq<Json>)
    ensures
        breakpoint_effects(m, node, max_pts, s + t) == breakpoint_effects(m, node, max_pts, s) + breakpoint_effects(m, node, max_pts, t),
    decreases t.len(),
{
    if t.len() == 0 {
        assert(s + t =~= s);
        assert(breakpoint_effects(m, node, max_pts, s) + breakpoint_effects(m, node, max_pts, t) =~= breakpoint_effects(m, node, max_pts, s));
    } else {
        law_breakpoint_effects_concatenate(m, node, max_pts, s, t.drop_last());
        assert((s + t).drop_last() =~= s + t.drop_last());
        assert((s + t).last() == t.last());
        assert(breakpoint_effects(m, node, max_pts, s + t) =~= breakpoint_effects(m, node, max_pts, s) + breakpoint_effects(m, node, max_pts, t));
    }
}

/// Quoted lines come one per part, in order.
/// The result for two runs joined is the results joined.
pub proof fn law_quoted_lines_concatenate(s: Seq<Seq<char>>, t: Seq<Seq<char>>)
    ensures
        quoted_lines(s + t) == quoted_lines(s) + quoted_lines(t),
    decreases t.len(),
{
    if t.len() == 0 {
        assert(s + t =~= s);
        assert(quoted_lines(s) + quoted_lines(t) =~= quoted_lines(s));
    } else {
        law_quoted_lines_concatenate(s, t.drop_last());
        assert((s + t).drop_last() =~= s + t.drop_last());
        assert((s + t).last() == t.last());
        assert(quoted_lines(s + t) =~= quoted_lines(s) + quoted_lines(t));
    }
}

/// The nodes of a mastery group are written one after another, in the given order.
/// The result for two runs joined is the results joined.
pub proof fn law_passive_nodes_text_concatenate(m: ResolverModel, class_id: u8, selected: Option<Seq<(String, Json)>>, nodes: Seq<(String, Json)>, s: Seq<usize>, t: Seq<usize>)
    ensures
        passive_nodes_text(m, class_id, selected, nodes, s + t) == passive_nodes_text(m, class_id, selected, nodes, s) + passive_nodes_text(m, class_id, selected, nodes, t),
    decreases t.len(),
{
    if t.len() == 0 {
        assert(s + t =~= s);
        assert(passive_nodes_text(m, class_id, selected, nodes, s) + passive_nodes_text(m, class_id, selected, nodes, t) =~= passive_nodes_text(m, class_id, selected, nodes, s));
    } else {
        law_passive_nodes_text_concatenate(m, class_id, selected, nodes, s, t.drop_last());
        assert((s + t).drop_last() =~= s + t.drop_last());
        assert((s + t).last() == t.last());
        assert(passive_nodes_text(m, class_id, selected, nodes, s + t) =~= passive_nodes_text(m, class_id, selected, nodes, s) + passive_nodes_text(m, class_id, selected, nodes, t));
    }
}

/// The mastery groups are written one after another, in the given order.
/// The result for two runs joined is the results joined.
pub proof fn law_mastery_groups_text_concatenate(m: ResolverModel, class_id: u8, selected: Option<Seq<(String, Json)>>, nodes: Seq<(String, Json)>, s: Seq<(u64, usize)>, t: Seq<(u64, usize)>)
    ensures
        mastery_groups_text(m, class_id, selected, nodes, s + t) == mastery_groups_text(m, class_id, selected, nodes, s) + mastery_groups_text(m, class_id, selected, nodes, t),
    decreases t.len(),
{
    if t.len() == 0 {
        assert(s + t =~= s);
        assert(mastery_groups_text(m, class_id, selected, nodes, s) + mastery_groups_text(m, class_id, selected, nodes, t) =~= mastery_groups_text(m, class_id, selected, nodes, s));
    } else {
        law_mastery_groups_text_concatenate(m, class_id, selected, nodes, s, t.drop_last());
        assert((s + t).drop_last() =~= s + t.drop_last());
        assert((s + t).last() == t.last());
        assert(mastery_groups_text(m, class_id, selected, nodes, s + t) =~= mastery_groups_text(m, class_id, selected, nodes, s) + mastery_groups_text(m, class_id, selected, nodes, t));
    }
}

/// Without the tree database, the selected passive nodes are listed one after another.
/// The result for two runs joined is the results joined.
pub proof fn law_selected_passive_lines_concatenate(s: Seq<(String, Json)>, t: Seq<(String, Json)>)
    ensures
        selected_passive_lines(s + t) == selected_passive_lines(s) + selected_passive_lines(t),
    decreases t.len(),
{
    if t.len() == 0 {
        assert(s + t =~= s);
        assert(selected_passive_lines(s) + selected_passive_lines(t) =~= selected_passive_lines(s));
    } else {
        law_selected_passive_lines_concatenate(s, t.drop_last());
        assert((s + t).drop_last() =~= s + t.drop_last());
        assert((s + t).last() == t.last());
        assert(selected_passive_lines(s + t) =~= selected_passive_lines(s) + selected_passive_lines(t));
    }
}


/// A single position gives the entry of the node at that position.
pub proof fn law_skill_nodes_text_single(m: ResolverModel, tree_id: Seq<char>, selected: Option<Seq<(String, Json)>>, nodes: Seq<(String, Json)>, o: usize)
    ensures
        skill_nodes_text(m, tree_id, selected, nodes, seq![o]) == skill_node_text(m, tree_id, selected, nodes, nodes[o as int].0@),
{
    assert(seq![o].drop_last() =~= Seq::<usize>::empty());
    assert(seq![o].last() == o);
    assert(skill_nodes_text(m, tree_id, selected, nodes, Seq::<usize>::empty()).len() == 0);
    assert(skill_nodes_text(m, tree_id, selected, nodes, seq![o]) =~= skill_node_text(m, tree_id, selected, nodes, nodes[o as int].0@));
}

/// A single position gives the entry of the node at that position.
pub proof fn law_passive_nodes_text_single(m: ResolverModel, class_id: u8, selected: Option<Seq<(String, Json)>>, nodes: Seq<(String, Json)>, o: usize)
    ensures
        passive_nodes_text(m, class_id, selected, nodes, seq![o]) == passive_node_text(m, class_id, selected, nodes, nodes[o as int].0@),
{
    assert(seq![o].drop_last() =~= Seq::<usize>::empty());
    assert(seq![o].last() == o);
    assert(passive_nodes_text(m, class_id, selected, nodes, Seq::<usize>::empty()).len() == 0);
    assert(passive_nodes_text(m, class_id, selected, nodes, seq![o]) =~= passive_node_text(m, class_id, selected, nodes, nodes[o as int].0@));
}

/// A single group gives that group's block.
pub proof fn law_mastery_groups_text_single(m: ResolverModel, class_id: u8, selected: Option<Seq<(String, Json)>>, nodes: Seq<(String, Json)>, g: (u64, usize))
    ensures
        mastery_groups_text(m, class_id, selected, nodes, seq![g]) == mastery_group_text(m, class_id, selected, nodes, g.0),
{
    assert(seq![g].drop_last() =~= Seq::<(u64, usize)>::empty());
    assert(seq![g].last() == g);
    assert(mastery_groups_text(m, class_id, selected, nodes, Seq::<(u64, usize)>::empty()).len() == 0);
    assert(mastery_groups_text(m, class_id, selected, nodes, seq![g]) =~= mastery_group_text(m, class_id, selected, nodes, g.0));
}

} // verus!
