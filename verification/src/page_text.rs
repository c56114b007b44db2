//! The plain page scrape: text read off the rendered planner page by
//! in-page scripts, and the short report written from it.
use vstd::prelude::*;

use crate::json::{as_array_of, as_object_of, as_str_of, jobj, json_get, jstr, Json};

verus! {

/// `key: value` lines for the members of an object whose values are
/// strings; other members are left out.
pub open spec fn string_member_lines(es: Seq<(String, Json)>) -> Seq<char>
    decreases es.len(),
{
    if es.len() == 0 {
        Seq::empty()
    } else {
        string_member_lines(es.drop_last()) + match es.last().1 {
            Json::Str(v) => es.last().0@ + ": "@ + v@ + "\n"@,
            _ => Seq::empty(),
        }
    }
}

/// The lines of the member `key` of `page` when it is an object.
pub open spec fn member_block(page: Json, key: Seq<char>) -> Seq<char> {
    match jobj(json_get(page, key)) {
        Some(es) => string_member_lines(es),
        None => Seq::empty(),
    }
}

/// A member of `page` that is a string, as a line of its own.
pub open spec fn string_line(page: Json, key: Seq<char>) -> Seq<char> {
    match jstr(json_get(page, key)) {
        Some(s) => s + "\n"@,
        None => Seq::empty(),
    }
}

/// The stats text of the page result: class and level lines, then the
/// attributes and resistances found.
pub open spec fn page_stats_text(page: Json) -> Seq<char> {
    string_line(page, "class"@) + string_line(page, "level"@) + "\nAttributes:\n"@ + member_block(
        page,
        "attributes"@,
    ) + "\nResistances:\n"@ + member_block(page, "resistances"@)
}

/// `- name` lines for the strings of an array; other elements are left out.
pub open spec fn name_lines(items: Seq<Json>) -> Seq<char>
    decreases items.len(),
{
    if items.len() == 0 {
        Seq::empty()
    } else {
        name_lines(items.drop_last()) + match items.last() {
            Json::Str(s) => "- "@ + s@ + "\n"@,
            _ => Seq::empty(),
        }
    }
}

/// The list text of a page result that should be an array of names, or
/// `fallback` when it lists no name.
pub open spec fn page_list_text(page: Json, fallback: Seq<char>) -> Seq<char> {
    let lines = match page {
        Json::Array(v) => name_lines(v@),
        _ => Seq::empty(),
    };
    if lines.len() == 0 {
        fallback
    } else {
        lines
    }
}

fn append_string_members(out: &mut String, es: &Vec<(String, Json)>)
    ensures
        final(out)@ == old(out)@ + string_member_lines(es@),
{
    let mut i: usize = 0;
    while i < es.len()
        invariant
            i <= es@.len(),
            out@ == old(out)@ + string_member_lines(es@.take(i as int)),
        decreases es.len() - i,
    {
        proof {
            assert(es@.take(i + 1).drop_last() =~= es@.take(i as int));
            assert(es@.take(i + 1).last() == es@[i as int]);
        }
        if let Json::Str(v) = &es[i].1 {
            out.append(es[i].0.as_str());
            out.append(": ");
            out.append(v.as_str());
            out.append("\n");
        }
        proof {
            assert(out@ =~= old(out)@ + string_member_lines(es@.take(i + 1)));
        }
        i += 1;
    }
    proof {
        assert(es@.take(es@.len() as int) =~= es@);
    }
}

/// The stats text of the page result: the `class` and `level` strings on
/// lines of their own, then the `attributes` and `resistances` objects as
/// `name: text` lines (only their string members).
pub fn page_stats(page: &Json) -> (r: String)
    ensures
        r@ == page_stats_text(*page),
{
    let mut out = String::new();
    if let Some(c) = as_str_of(page.get("class")) {
        out.append(c.as_str());
        out.append("\n");
    }
    if let Some(l) = as_str_of(page.get("level")) {
        out.append(l.as_str());
        out.append("\n");
    }
    out.append("\nAttributes:\n");
    if let Some(es) = as_object_of(page.get("attributes")) {
        append_string_members(&mut out, es);
    }
    out.append("\nResistances:\n");
    if let Some(es) = as_object_of(page.get("resistances")) {
        append_string_members(&mut out, es);
    }
    proof {
        assert(out@ =~= page_stats_text(*page));
    }
    out
}

/// The list text of a page result: a `- name` line for each string of the
/// array it should be, or `fallback` when there is none.
pub fn page_list(page: &Json, fallback: &str) -> (r: String)
    ensures
        r@ == page_list_text(*page, fallback@),
{
    let mut out = String::new();
    let mut wrote = false;
    if let Some(items) = as_array_of(Some(page)) {
        let mut i: usize = 0;
        while i < items.len()
            invariant
                i <= items@.len(),
                out@ == name_lines(items@.take(i as int)),
                wrote == (out@.len() > 0),
            decreases items.len() - i,
        {
            proof {
                assert(items@.take(i + 1).drop_last() =~= items@.take(i as int));
                assert(items@.take(i + 1).last() == items@[i as int]);
            }
            if let Json::Str(s) = &items[i] {
                out.append("- ");
                out.append(s.as_str());
                out.append("\n");
                proof {
                    reveal_strlit("\n");
                }
                wrote = true;
            }
            proof {
                assert(out@ =~= name_lines(items@.take(i + 1)));
            }
            i += 1;
        }
        proof {
            assert(items@.take(items@.len() as int) =~= items@);
        }
    }
    if !wrote {
        return fallback.to_owned();
    }
    out
}

/// The skills text of a page result.
pub fn page_skills(page: &Json) -> (r: String)
    ensures
        r@ == page_list_text(
            *page,
            "No skills found (extraction logic needs refinement based on DOM)."@,
        ),
{
    page_list(page, "No skills found (extraction logic needs refinement based on DOM).")
}

/// The equipment text of a page result.
pub fn page_equipment(page: &Json) -> (r: String)
    ensures
        r@ == page_list_text(
            *page,
            "No equipment found (extraction logic needs refinement based on DOM)."@,
        ),
{
    page_list(page, "No equipment found (extraction logic needs refinement based on DOM).")
}

/// The page report: the URL, then the stats, skills and equipment texts
/// under their headings.
pub open spec fn page_report_text(
    url: Seq<char>,
    stats: Seq<char>,
    skills: Seq<char>,
    equipment: Seq<char>,
) -> Seq<char> {
    "Build Data for "@ + url + "\n\n--- Character Stats ---\n"@ + stats
        + "\n\n--- Skills & Passives ---\n"@ + skills + "\n\n--- Equipment ---\n"@ + equipment
        + "\n"@
}

/// Writes the page report.
pub fn page_report(url: &str, stats: &str, skills: &str, equipment: &str) -> (r: String)
    ensures
        r@ == page_report_text(url@, stats@, skills@, equipment@),
{
    let mut out = String::new();
    out.append("Build Data for ");
    out.append(url);
    out.append("\n\n--- Character Stats ---\n");
    out.append(stats);
    out.append("\n\n--- Skills & Passives ---\n");
    out.append(skills);
    out.append("\n\n--- Equipment ---\n");
    out.append(equipment);
    out.append("\n");
    proof {
        assert(out@ =~= page_report_text(url@, stats@, skills@, equipment@));
    }
    out
}

// ---------------------------------------------------------------- laws

/// The members of a page object are listed one after another, in order.
/// The result for two runs joined is the results joined.
pub proof fn law_string_member_lines_concatenate(s: Seq<(String, Json)>, t: Seq<(String, Json)>)
    ensures
        string_member_lines(s + t) == string_member_lines(s) + string_member_lines(t),
    decreases t.len(),
{
    if t.len() == 0 {
        assert(s + t =~= s);
        assert(string_member_lines(s) + string_member_lines(t) =~= string_member_lines(s));
    } else {
        law_string_member_lines_concatenate(s, t.drop_last());
        assert((s + t).drop_last() =~= s + t.drop_last());
        assert((s + t).last() == t.last());
        assert(string_member_lines(s + t) =~= string_member_lines(s) + string_member_lines(t));
    }
}

/// The names of a page list are listed one after another, in order.
/// The result for two runs joined is the results joined.
pub proof fn law_name_lines_concatenate(s: Seq<Json>, t: Seq<Json>)
    ensures
        name_lines(s + t) == name_lines(s) + name_lines(t),
    decreases t.len(),
{
    if t.len() == 0 {
        assert(s + t =~= s);
        assert(name_lines(s) + name_lines(t) =~= name_lines(s));
    } else {
        law_name_lines_concatenate(s, t.drop_last());
        assert((s + t).drop_last() =~= s + t.drop_last());
        assert((s + t).last() == t.last());
        assert(name_lines(s + t) =~= name_lines(s) + name_lines(t));
    }
}

} // verus!
