//! The build report: what is run for the command-line arguments, and what is
//! written for a build, section by section.
pub mod gear;
pub mod idols_scraper;
pub mod report;
pub mod resolver;
pub mod trees;

use vstd::prelude::*;

use crate::json::{
    append_json_text, as_object_of, as_str_of, as_u64_of, get_in, jget, jobj, json_text,
    json_to_text, jstr, ju64, opt_json, Json,
};
use crate::sub_logic::gear::{
    blessings_section, equipment_pieces, idols_section, write_blessings, write_equipment,
    write_idols,
};
use crate::sub_logic::report::{text, Piece, Report};
use crate::sub_logic::resolver::{Resolver, ResolverModel};
use crate::sub_logic::trees::{passives_text, skills_text, write_passives, write_skills};
use crate::text::{append_char, append_dec, chars_vec, dec};

verus! {

/// The command-line arguments: a planner URL, or the request to scrape the
/// idol database instead, and an optional output path.
pub struct Args {
    pub url: Option<String>,
    pub idols: bool,
    pub output: Option<String>,
}

/// What a run does.
pub enum RunPlan {
    /// Scrape the idol database.
    Idols,
    /// Scrape the build at `url` and write its report to `output_path`.
    Build { url: String, output_path: String },
}

/// Why a run cannot start.
#[derive(Debug, PartialEq, Eq)]
pub enum RunError {
    /// Neither a URL nor the idol request was given.
    MissingUrl,
}

impl RunError {
    /// The message for this error.
    pub fn message(&self) -> (r: String)
        ensures
            r@ == "URL is required when not using --idols"@,
    {
        "URL is required when not using --idols".to_owned()
    }
}

/// `s` without its trailing `/` characters.
pub open spec fn trim_slashes(s: Seq<char>) -> Seq<char>
    decreases s.len(),
{
    if s.len() > 0 && s.last() == '/' {
        trim_slashes(s.drop_last())
    } else {
        s
    }
}

/// The part of `s` after its last `/` (all of `s` when it has none).
pub open spec fn last_segment(s: Seq<char>) -> Seq<char>
    decreases s.len(),
{
    if s.len() == 0 {
        s
    } else if s.last() == '/' {
        Seq::empty()
    } else {
        last_segment(s.drop_last()).push(s.last())
    }
}

/// The report path for a build URL: `builds/<last path segment>.txt`.
pub open spec fn default_output_path(url: Seq<char>) -> Seq<char> {
    "builds/"@ + last_segment(trim_slashes(url)) + ".txt"@
}

/// The report path for a build URL: the URL's last path segment, trailing
/// slashes ignored, under `builds/` with the extension `.txt`.
pub fn default_output_path_for(url: &str) -> (r: String)
    ensures
        r@ == default_output_path(url@),
{
    let cs = chars_vec(url);
    let mut end: usize = cs.len();
    assert(url@.take(end as int) =~= url@);
    while end > 0 && cs[end - 1] == '/'
        invariant
            end <= cs@.len(),
            cs@ == url@,
            trim_slashes(url@) == trim_slashes(url@.take(end as int)),
        decreases end,
    {
        proof {
            assert(url@.take(end as int).drop_last() =~= url@.take(end - 1));
        }
        end -= 1;
    }
    let ghost trimmed = url@.take(end as int);
    assert(trim_slashes(url@) == trimmed) by {
        assert(url@.take(cs@.len() as int) =~= url@);
    }
    let mut start: usize = end;
    while start > 0 && cs[start - 1] != '/'
        invariant
            start <= end <= cs@.len(),
            cs@ == url@,
            trimmed == url@.take(end as int),
            last_segment(trimmed) == last_segment(url@.take(start as int)) + url@.subrange(
                start as int,
                end as int,
            ),
        decreases start,
    {
        proof {
            let t = url@.take(start as int);
            assert(t.drop_last() =~= url@.take(start - 1));
            assert(t.last() == cs@[start - 1]);
            assert(last_segment(t) == last_segment(url@.take(start - 1)).push(t.last()));
            assert(last_segment(url@.take(start - 1)).push(t.last()) + url@.subrange(
                start as int,
                end as int,
            ) =~= last_segment(url@.take(start - 1)) + url@.subrange(start - 1, end as int));
        }
        start -= 1;
    }
    proof {
        let t = url@.take(start as int);
        if start > 0 {
            assert(t.last() == '/');
        }
        assert(last_segment(t) =~= Seq::<char>::empty());
    }
    let mut out = String::new();
    out.append("builds/");
    let mut i: usize = start;
    while i < end
        invariant
            start <= i <= end <= cs@.len(),
            cs@ == url@,
            out@ == "builds/"@ + url@.subrange(start as int, i as int),
        decreases end - i,
    {
        append_char(&mut out, cs[i]);
        i += 1;
        proof {
            assert(out@ =~= "builds/"@ + url@.subrange(start as int, i as int));
        }
    }
    out.append(".txt");
    proof {
        assert(last_segment(trimmed) =~= url@.subrange(start as int, end as int));
        assert(out@ =~= default_output_path(url@));
    }
    out
}

proof fn lemma_last_segment_has_no_slash(s: Seq<char>)
    ensures
        forall|i: int| 0 <= i < last_segment(s).len() ==> last_segment(s)[i] != '/',
    decreases s.len(),
{
    if s.len() > 0 && s.last() != '/' {
        lemma_last_segment_has_no_slash(s.drop_last());
        let t = last_segment(s.drop_last());
        assert(last_segment(s) == t.push(s.last()));
        assert forall|i: int| 0 <= i < last_segment(s).len() implies last_segment(s)[i] != '/' by {
            if i < t.len() {
                assert(last_segment(s)[i] == t[i]);
            }
        }
    }
}

/// Without an output path, a report goes to a `.txt` file directly under
/// `builds/`.
pub proof fn law_default_output_path_in_builds(url: Seq<char>)
    ensures
        default_output_path(url).len() >= 11,
        default_output_path(url).take(7) == "builds/"@,
        default_output_path(url).skip(default_output_path(url).len() - 4) == ".txt"@,
        forall|i: int|
            7 <= i < default_output_path(url).len() ==> default_output_path(url)[i] != '/',
{
    reveal_strlit("builds/");
    reveal_strlit(".txt");
    let seg = last_segment(trim_slashes(url));
    lemma_last_segment_has_no_slash(trim_slashes(url));
    let p = default_output_path(url);
    assert(p.take(7) =~= "builds/"@);
    assert(p.skip(p.len() - 4) =~= ".txt"@);
    assert forall|i: int| 7 <= i < p.len() implies p[i] != '/' by {
        if i < 7 + seg.len() {
            assert(p[i] == seg[i - 7]);
        } else {
            assert(p[i] == ".txt"@[i - 7 - seg.len()]);
        }
    }
}

/// Trailing slashes on a build URL do not change its report path.
pub proof fn law_output_path_ignores_trailing_slash(url: Seq<char>)
    ensures
        default_output_path(url.push('/')) == default_output_path(url),
{
    assert(url.push('/').drop_last() =~= url);
}

// ---------------------------------------------------------------- planner data
/// How many more times the page is asked for the planner data after a first
/// attempt that found none, two seconds apart.
pub const PAYLOAD_POLLS: usize = 15;

/// An answer that holds the planner data: a value other than `null`.
pub open spec fn payload_present(answer: Option<Json>) -> bool {
    answer matches Some(v) && !(v is Null)
}

/// Whether the page's answer holds the planner data: a value other than
/// `null`.
pub fn payload_ready(value: Option<&Json>) -> (r: bool)
    ensures
        r == payload_present(opt_json(value)),
{
    match value {
        Some(v) => !v.is_null(),
        None => false,
    }
}

/// What to do next while waiting for the planner data.
#[derive(Debug, PartialEq, Eq)]
pub enum PollAction {
    /// Wait two seconds and ask the page again.
    Wait,
    /// Stop asking, and read the latest answer.
    Stop,
}

/// The next step of the wait for the planner data, after the first attempt
/// and `retries` more: ask again while the latest answer holds no data and
/// fewer than `PAYLOAD_POLLS` retries were made; stop otherwise.
pub fn next_poll(retries: usize, answer: Option<&Json>) -> (a: PollAction)
    ensures
        a == (if !payload_present(opt_json(answer)) && retries < PAYLOAD_POLLS {
            PollAction::Wait
        } else {
            PollAction::Stop
        }),
{
    if !payload_ready(answer) && retries < PAYLOAD_POLLS {
        PollAction::Wait
    } else {
        PollAction::Stop
    }
}

/// Why no planner data could be read off the page.
#[derive(Debug, PartialEq, Eq)]
pub enum PayloadError {
    /// The page's script returned no value at all.
    NoValue,
    /// The page's script returned `null`: no planner data was intercepted.
    NotFound,
}

impl PayloadError {
    /// The message for this error (without the script's answer, which the
    /// caller adds to the first kind).
    pub fn message(&self) -> (r: String)
        ensures
            *self == PayloadError::NoValue ==> r@ == "No value returned from script"@,
            *self == PayloadError::NotFound ==> r@ == "fetch intercepted payload not found on page"@,
    {
        match self {
            PayloadError::NoValue => "No value returned from script".to_owned(),
            PayloadError::NotFound => "fetch intercepted payload not found on page".to_owned(),
        }
    }
}

/// The planner data text in the page's final answer: the string it
/// returned, or the compact text of any other non-null value.
pub fn payload_text(value: Option<&Json>) -> (r: Result<String, PayloadError>)
    ensures
        match opt_json(value) {
            None => r == Err::<String, PayloadError>(PayloadError::NoValue),
            Some(Json::Null) => r == Err::<String, PayloadError>(PayloadError::NotFound),
            Some(Json::Str(s)) => r matches Ok(t) && t@ == s@,
            Some(v) => r matches Ok(t) && t@ == json_text(v),
        },
{
    match value {
        None => Err(PayloadError::NoValue),
        Some(Json::Null) => Err(PayloadError::NotFound),
        Some(Json::Str(s)) => Ok(s.clone()),
        Some(v) => Ok(json_to_text(v)),
    }
}

/// Decides what a run does: the idol scrape when asked for; otherwise the
/// build at the URL, written to the given output path or, without one, to the
/// URL's default report path; without a URL the run cannot start.
pub fn plan_run(args: &Args) -> (r: Result<RunPlan, RunError>)
    ensures
        args.idols ==> r == Ok::<RunPlan, RunError>(RunPlan::Idols),
        !args.idols && args.url is None ==> r == Err::<RunPlan, RunError>(RunError::MissingUrl),
        !args.idols && args.url is Some ==> (match r {
            Ok(RunPlan::Build { url, output_path }) => url@ == args.url->0@ && output_path@ == (
            match args.output {
                Some(o) => o@,
                None => default_output_path(args.url->0@),
            }),
            _ => false,
        }),
{
    if args.idols {
        return Ok(RunPlan::Idols);
    }
    match &args.url {
        None => Err(RunError::MissingUrl),
        Some(url) => {
            let output_path = match &args.output {
                Some(o) => o.clone(),
                None => default_output_path_for(url.as_str()),
            };
            Ok(RunPlan::Build { url: url.clone(), output_path })
        },
    }
}

/// The name of a mastery group of a class passive tree (mastery 0 is the
/// base class).
pub open spec fn mastery_group_name(class_id: u8, mastery_id: u64) -> Seq<char> {
    if class_id == 0 && mastery_id == 0 {
        "Primalist"@
    } else if class_id == 0 && mastery_id == 1 {
        "Beastmaster"@
    } else if class_id == 0 && mastery_id == 2 {
        "Shaman"@
    } else if class_id == 0 && mastery_id == 3 {
        "Druid"@
    } else if class_id == 1 && mastery_id == 0 {
        "Mage"@
    } else if class_id == 1 && mastery_id == 1 {
        "Sorcerer"@
    } else if class_id == 1 && mastery_id == 2 {
        "Spellblade"@
    } else if class_id == 1 && mastery_id == 3 {
        "Runemaster"@
    } else if class_id == 2 && mastery_id == 0 {
        "Sentinel"@
    } else if class_id == 2 && mastery_id == 1 {
        "Void Knight"@
    } else if class_id == 2 && mastery_id == 2 {
        "Forge Guard"@
    } else if class_id == 2 && mastery_id == 3 {
        "Paladin"@
    } else if class_id == 3 && mastery_id == 0 {
        "Acolyte"@
    } else if class_id == 3 && mastery_id == 1 {
        "Necromancer"@
    } else if class_id == 3 && mastery_id == 2 {
        "Lich"@
    } else if class_id == 3 && mastery_id == 3 {
        "Warlock"@
    } else if class_id == 4 && mastery_id == 0 {
        "Rogue"@
    } else if class_id == 4 && mastery_id == 1 {
        "Bladedancer"@
    } else if class_id == 4 && mastery_id == 2 {
        "Marksman"@
    } else if class_id == 4 && mastery_id == 3 {
        "Falconer"@
    } else {
        "Unknown Category"@
    }
}

/// The name of a mastery group of a class passive tree.
pub fn get_mastery_name(class_id: u8, mastery_id: u64) -> (r: &'static str)
    ensures
        r@ == mastery_group_name(class_id, mastery_id),
{
    if class_id == 0 && mastery_id == 0 {
        "Primalist"
    } else if class_id == 0 && mastery_id == 1 {
        "Beastmaster"
    } else if class_id == 0 && mastery_id == 2 {
        "Shaman"
    } else if class_id == 0 && mastery_id == 3 {
        "Druid"
    } else if class_id == 1 && mastery_id == 0 {
        "Mage"
    } else if class_id == 1 && mastery_id == 1 {
        "Sorcerer"
    } else if class_id == 1 && mastery_id == 2 {
        "Spellblade"
    } else if class_id == 1 && mastery_id == 3 {
        "Runemaster"
    } else if class_id == 2 && mastery_id == 0 {
        "Sentinel"
    } else if class_id == 2 && mastery_id == 1 {
        "Void Knight"
    } else if class_id == 2 && mastery_id == 2 {
        "Forge Guard"
    } else if class_id == 2 && mastery_id == 3 {
        "Paladin"
    } else if class_id == 3 && mastery_id == 0 {
        "Acolyte"
    } else if class_id == 3 && mastery_id == 1 {
        "Necromancer"
    } else if class_id == 3 && mastery_id == 2 {
        "Lich"
    } else if class_id == 3 && mastery_id == 3 {
        "Warlock"
    } else if class_id == 4 && mastery_id == 0 {
        "Rogue"
    } else if class_id == 4 && mastery_id == 1 {
        "Bladedancer"
    } else if class_id == 4 && mastery_id == 2 {
        "Marksman"
    } else if class_id == 4 && mastery_id == 3 {
        "Falconer"
    } else {
        "Unknown Category"
    }
}

/// The class name in the character header.
pub open spec fn class_label(class_id: Option<u8>) -> Seq<char> {
    match class_id {
        Some(0) => "Primalist"@,
        Some(1) => "Mage"@,
        Some(2) => "Sentinel"@,
        Some(3) => "Acolyte"@,
        Some(4) => "Rogue"@,
        _ => "Unknown Class"@,
    }
}

/// The mastery name in the character header.
pub open spec fn mastery_label(class_id: Option<u8>, mastery_id: Option<u8>) -> Seq<char> {
    match (class_id, mastery_id) {
        (Some(0), Some(1)) => "Beastmaster"@,
        (Some(0), Some(2)) => "Shaman"@,
        (Some(0), Some(3)) => "Druid"@,
        (Some(1), Some(1)) => "Sorcerer"@,
        (Some(1), Some(2)) => "Spellblade"@,
        (Some(1), Some(3)) => "Runemaster"@,
        (Some(2), Some(1)) => "Void Knight"@,
        (Some(2), Some(2)) => "Forge Guard"@,
        (Some(2), Some(3)) => "Paladin"@,
        (Some(3), Some(1)) => "Lich"@,
        (Some(3), Some(2)) => "Necromancer"@,
        (Some(3), Some(3)) => "Warlock"@,
        (Some(4), Some(1)) => "Bladedancer"@,
        (Some(4), Some(2)) => "Marksman"@,
        (Some(4), Some(3)) => "Falconer"@,
        _ => "Base Class"@,
    }
}

/// Length and first two characters of a mastery group name, as one number.
spec fn group_name_print(class_id: u8, mastery_id: u64) -> int {
    if class_id == 0 && mastery_id == 0 {
        9080114
    } else if class_id == 0 && mastery_id == 1 {
        11066101
    } else if class_id == 0 && mastery_id == 2 {
        6083104
    } else if class_id == 0 && mastery_id == 3 {
        5068114
    } else if class_id == 1 && mastery_id == 0 {
        4077097
    } else if class_id == 1 && mastery_id == 1 {
        8083111
    } else if class_id == 1 && mastery_id == 2 {
        10083112
    } else if class_id == 1 && mastery_id == 3 {
        10082117
    } else if class_id == 2 && mastery_id == 0 {
        8083101
    } else if class_id == 2 && mastery_id == 1 {
        11086111
    } else if class_id == 2 && mastery_id == 2 {
        11070111
    } else if class_id == 2 && mastery_id == 3 {
        7080097
    } else if class_id == 3 && mastery_id == 0 {
        7065099
    } else if class_id == 3 && mastery_id == 1 {
        11078101
    } else if class_id == 3 && mastery_id == 2 {
        4076105
    } else if class_id == 3 && mastery_id == 3 {
        7087097
    } else if class_id == 4 && mastery_id == 0 {
        5082111
    } else if class_id == 4 && mastery_id == 1 {
        11066108
    } else if class_id == 4 && mastery_id == 2 {
        8077097
    } else if class_id == 4 && mastery_id == 3 {
        8070097
    } else {
        0
    }
}

proof fn lemma_group_name_print(class_id: u8, mastery_id: u64)
    requires
        class_id <= 4,
        mastery_id <= 3,
    ensures
        ({
            let n = mastery_group_name(class_id, mastery_id);
            n.len() >= 2 && group_name_print(class_id, mastery_id) == n.len() * 1000000 + (n[0] as int)
                * 1000 + (n[1] as int)
        }),
        mastery_group_name(class_id, mastery_id).len() < 16,
{
    if class_id == 0 && mastery_id == 0 {
        reveal_strlit("Primalist");
    } else if class_id == 0 && mastery_id == 1 {
        reveal_strlit("Beastmaster");
    } else if class_id == 0 && mastery_id == 2 {
        reveal_strlit("Shaman");
    } else if class_id == 0 && mastery_id == 3 {
        reveal_strlit("Druid");
    } else if class_id == 1 && mastery_id == 0 {
        reveal_strlit("Mage");
    } else if class_id == 1 && mastery_id == 1 {
        reveal_strlit("Sorcerer");
    } else if class_id == 1 && mastery_id == 2 {
        reveal_strlit("Spellblade");
    } else if class_id == 1 && mastery_id == 3 {
        reveal_strlit("Runemaster");
    } else if class_id == 2 && mastery_id == 0 {
        reveal_strlit("Sentinel");
    } else if class_id == 2 && mastery_id == 1 {
        reveal_strlit("Void Knight");
    } else if class_id == 2 && mastery_id == 2 {
        reveal_strlit("Forge Guard");
    } else if class_id == 2 && mastery_id == 3 {
        reveal_strlit("Paladin");
    } else if class_id == 3 && mastery_id == 0 {
        reveal_strlit("Acolyte");
    } else if class_id == 3 && mastery_id == 1 {
        reveal_strlit("Necromancer");
    } else if class_id == 3 && mastery_id == 2 {
        reveal_strlit("Lich");
    } else if class_id == 3 && mastery_id == 3 {
        reveal_strlit("Warlock");
    } else if class_id == 4 && mastery_id == 0 {
        reveal_strlit("Rogue");
    } else if class_id == 4 && mastery_id == 1 {
        reveal_strlit("Bladedancer");
    } else if class_id == 4 && mastery_id == 2 {
        reveal_strlit("Marksman");
    } else if class_id == 4 && mastery_id == 3 {
        reveal_strlit("Falconer");
    }
}

/// Every class (0 to 4) and mastery (0 to 3) has a group name of its own:
/// no two of them share one, and none is the name for an unknown group.
pub proof fn law_mastery_group_names_distinct(c1: u8, m1: u64, c2: u8, m2: u64)
    requires
        c1 <= 4,
        c2 <= 4,
        m1 <= 3,
        m2 <= 3,
    ensures
        mastery_group_name(c1, m1) == mastery_group_name(c2, m2) <==> (c1 == c2 && m1 == m2),
        mastery_group_name(c1, m1) != "Unknown Category"@,
{
    lemma_group_name_print(c1, m1);
    lemma_group_name_print(c2, m2);
    reveal_strlit("Unknown Category");
    if mastery_group_name(c1, m1) == mastery_group_name(c2, m2) {
        assert(group_name_print(c1, m1) == group_name_print(c2, m2));
    }
}

/// The character header names a class as the passive tree names its base
/// group.
pub proof fn law_class_names_agree(class_id: u8)
    requires
        class_id <= 4,
    ensures
        class_label(Some(class_id)) == mastery_group_name(class_id, 0),
{
}

/// The character header names a mastery as the passive tree names its group,
/// for every class but the Acolyte, whose two first masteries the header
/// names the other way round.
pub proof fn law_mastery_names_agree(class_id: u8, mastery_id: u8)
    requires
        class_id <= 4,
        class_id != 3,
        1 <= mastery_id <= 3,
    ensures
        mastery_label(Some(class_id), Some(mastery_id)) == mastery_group_name(
            class_id,
            mastery_id as u64,
        ),
{
}

fn class_label_exec(class_id: Option<u8>) -> (r: &'static str)
    ensures
        r@ == class_label(class_id),
{
    match class_id {
        Some(0) => "Primalist",
        Some(1) => "Mage",
        Some(2) => "Sentinel",
        Some(3) => "Acolyte",
        Some(4) => "Rogue",
        _ => "Unknown Class",
    }
}

fn mastery_label_exec(class_id: Option<u8>, mastery_id: Option<u8>) -> (r: &'static str)
    ensures
        r@ == mastery_label(class_id, mastery_id),
{
    match (class_id, mastery_id) {
        (Some(0), Some(1)) => "Beastmaster",
        (Some(0), Some(2)) => "Shaman",
        (Some(0), Some(3)) => "Druid",
        (Some(1), Some(1)) => "Sorcerer",
        (Some(1), Some(2)) => "Spellblade",
        (Some(1), Some(3)) => "Runemaster",
        (Some(2), Some(1)) => "Void Knight",
        (Some(2), Some(2)) => "Forge Guard",
        (Some(2), Some(3)) => "Paladin",
        (Some(3), Some(1)) => "Lich",
        (Some(3), Some(2)) => "Necromancer",
        (Some(3), Some(3)) => "Warlock",
        (Some(4), Some(1)) => "Bladedancer",
        (Some(4), Some(2)) => "Marksman",
        (Some(4), Some(3)) => "Falconer",
        _ => "Base Class",
    }
}

/// A `u64` read as a `u8`, keeping its low byte.
pub open spec fn low_byte(o: Option<u64>) -> Option<u8> {
    match o {
        Some(v) => Some(v as u8),
        None => None,
    }
}

/// The `bio` member of the build's `data`.
pub open spec fn bio_of(build: Json) -> Option<Json> {
    jget(jget(Some(build), "data"@), "bio"@)
}

/// The character header: name, level, class and mastery from `data.bio`.
pub open spec fn character_info_text(build: Json) -> Seq<char> {
    let bio = bio_of(build);
    let class_id = low_byte(ju64(jget(bio, "characterClass"@)));
    let mastery_id = low_byte(ju64(jget(bio, "chosenMastery"@)));
    let level = match ju64(jget(bio, "level"@)) {
        Some(l) => dec(l as nat),
        None => "N/A"@,
    };
    let name = match jstr(jget(bio, "name"@)) {
        Some(n) => n,
        None => "N/A"@,
    };
    "Name: "@ + name + "\nLevel: "@ + level + "\nClass: "@ + class_label(class_id)
        + "\nMastery: "@ + mastery_label(class_id, mastery_id) + "\n\n"@
}

fn low_byte_exec(o: Option<u64>) -> (r: Option<u8>)
    ensures
        r == low_byte(o),
{
    match o {
        Some(v) => Some(v as u8),
        None => None,
    }
}

/// Writes the character header.
pub fn write_character_info(build: &Json) -> (r: String)
    ensures
        r@ == character_info_text(*build),
{
    let bio = get_in(build.get("data"), "bio");
    let class_id = low_byte_exec(as_u64_of(get_in(bio, "characterClass")));
    let mastery_id = low_byte_exec(as_u64_of(get_in(bio, "chosenMastery")));
    let level = as_u64_of(get_in(bio, "level"));
    let mut out = String::new();
    out.append("Name: ");
    match as_str_of(get_in(bio, "name")) {
        Some(n) => out.append(n.as_str()),
        None => out.append("N/A"),
    }
    out.append("\nLevel: ");
    match level {
        Some(l) => append_dec(&mut out, l),
        None => out.append("N/A"),
    }
    out.append("\nClass: ");
    out.append(class_label_exec(class_id));
    out.append("\nMastery: ");
    out.append(mastery_label_exec(class_id, mastery_id));
    out.append("\n\n");
    proof {
        assert(out@ =~= character_info_text(*build));
    }
    out
}

/// `  key: value` lines for the members of an object.
pub open spec fn member_lines(es: Seq<(String, Json)>) -> Seq<char>
    decreases es.len(),
{
    if es.len() == 0 {
        Seq::empty()
    } else {
        member_lines(es.drop_last()) + "  "@ + es.last().0@ + ": "@ + json_text(es.last().1)
            + "\n"@
    }
}

/// A stats group writes one line per member, in order: the lines of two
/// runs of members are those of the first followed by those of the second.
pub proof fn law_member_lines_concatenate(s: Seq<(String, Json)>, t: Seq<(String, Json)>)
    ensures
        member_lines(s + t) == member_lines(s) + member_lines(t),
    decreases t.len(),
{
    if t.len() == 0 {
        assert(s + t =~= s);
    } else {
        law_member_lines_concatenate(s, t.drop_last());
        assert((s + t).drop_last() =~= s + t.drop_last());
        assert((s + t).last() == t.last());
    }
}

/// The line of one member is `  key: value`, the value as compact JSON.
pub proof fn law_member_line_single(k: String, v: Json)
    ensures
        member_lines(seq![(k, v)]) == "  "@ + k@ + ": "@ + json_text(v) + "\n"@,
{
    assert(seq![(k, v)].drop_last() =~= Seq::<(String, Json)>::empty());
    assert(member_lines(Seq::<(String, Json)>::empty()) == Seq::<char>::empty());
    assert(Seq::<char>::empty() + "  "@ + k@ + ": "@ + json_text(v) + "\n"@ =~= "  "@ + k@ + ": "@
        + json_text(v) + "\n"@);
}

/// One group of computed stats: its header and its members, when present.
pub open spec fn stats_group_text(data: Json, key: Seq<char>, header: Seq<char>) -> Seq<char> {
    match jget(Some(data), key) {
        Some(v) => header + match jobj(Some(v)) {
            Some(es) => member_lines(es),
            None => Seq::empty(),
        },
        None => Seq::empty(),
    }
}

/// The computed stats: general stats, attributes, resistances and defences
/// from `precalc_data.data`.
pub open spec fn stats_text(build: Json) -> Seq<char> {
    match jget(jget(Some(build), "precalc_data"@), "data"@) {
        Some(data) => stats_group_text(data, "general"@, "General:\n"@) + stats_group_text(
            data,
            "attributes"@,
            "\nAttributes:\n"@,
        ) + stats_group_text(data, "resistances"@, "\nResistances:\n"@) + stats_group_text(
            data,
            "defences"@,
            "\nDefences:\n"@,
        ),
        None => "No stats data found.\n"@,
    }
}

fn append_member_lines(out: &mut String, es: &Vec<(String, Json)>)
    ensures
        final(out)@ == old(out)@ + member_lines(es@),
{
    let mut i: usize = 0;
    while i < es.len()
        invariant
            i <= es@.len(),
            out@ == old(out)@ + member_lines(es@.take(i as int)),
        decreases es.len() - i,
    {
        proof {
            assert(es@.take(i + 1).drop_last() =~= es@.take(i as int));
            assert(es@.take(i + 1).last() == es@[i as int]);
        }
        out.append("  ");
        out.append(es[i].0.as_str());
        out.append(": ");
        append_json_text(out, &es[i].1);
        out.append("\n");
        proof {
            assert(out@ =~= old(out)@ + member_lines(es@.take(i + 1)));
        }
        i += 1;
    }
    proof {
        assert(es@.take(es@.len() as int) =~= es@);
    }
}

fn append_stats_group(out: &mut String, data: &Json, key: &str, header: &str)
    ensures
        final(out)@ == old(out)@ + stats_group_text(*data, key@, header@),
{
    if let Some(v) = data.get(key) {
        out.append(header);
        if let Some(es) = as_object_of(Some(v)) {
            append_member_lines(out, es);
        }
    }
    proof {
        assert(out@ =~= old(out)@ + stats_group_text(*data, key@, header@));
    }
}

/// Writes the computed stats.
pub fn write_stats(build: &Json) -> (r: String)
    ensures
        r@ == stats_text(*build),
{
    let mut out = String::new();
    match get_in(build.get("precalc_data"), "data") {
        Some(data) => {
            append_stats_group(&mut out, data, "general", "General:\n");
            append_stats_group(&mut out, data, "attributes", "\nAttributes:\n");
            append_stats_group(&mut out, data, "resistances", "\nResistances:\n");
            append_stats_group(&mut out, data, "defences", "\nDefences:\n");
        },
        None => {
            out.append("No stats data found.\n");
        },
    }
    proof {
        assert(out@ =~= stats_text(*build));
    }
    out
}


// ---------------------------------------------------------------- the report
/// The line under the report's title.
pub const FORGING_NOTE: &'static str = "Note: Last Epoch tools does not report forging potential. Any non-corrupted items may have forging potential left over (but may be limited by forging level limits), or are due for corrupting.";

/// The text sections of a report: title, note, character, stats, skills and
/// passives.
pub open spec fn report_head(
    url: Seq<char>,
    build: Json,
    m: ResolverModel,
    skill_trees: Option<Json>,
    char_trees: Option<Json>,
) -> Seq<char> {
    "Build Data for "@ + url + "\n\n"@ + FORGING_NOTE@ + "\n\n"@ + character_info_text(build)
        + "--- Character Stats ---\n"@ + stats_text(build) + "\n--- Skills & Passives ---\n"@
        + skills_text(build, m, skill_trees) + passives_text(build, m, char_trees)
}

/// The whole report of a build.
pub open spec fn report_pieces(
    url: Seq<char>,
    build: Json,
    m: ResolverModel,
    skill_trees: Option<Json>,
    char_trees: Option<Json>,
) -> Seq<Piece> {
    text(report_head(url, build, m, skill_trees, char_trees)) + text("\n--- Equipment ---\n"@)
        + equipment_pieces(build, m) + text("\n--- Idols ---\n"@) + idols_section(build, m) + text(
        "\n--- Blessings ---\n"@,
    ) + blessings_section(build, m)
}

/// The report of the build `build` scraped from `url`, with names and
/// numbers resolved by `resolver` and trees read from the skill tree and
/// passive tree databases where they were dumped.
pub fn build_report(
    url: &str,
    build: &Json,
    resolver: &Resolver,
    skill_trees: Option<&Json>,
    char_trees: Option<&Json>,
) -> (r: Report)
    ensures
        r@ == report_pieces(url@, *build, resolver@, opt_json(skill_trees), opt_json(char_trees)),
{
    let mut head = String::new();
    head.append("Build Data for ");
    head.append(url);
    head.append("\n\n");
    head.append(FORGING_NOTE);
    head.append("\n\n");
    let info = write_character_info(build);
    head.append(info.as_str());
    head.append("--- Character Stats ---\n");
    let stats = write_stats(build);
    head.append(stats.as_str());
    head.append("\n--- Skills & Passives ---\n");
    let skills = write_skills(build, resolver, skill_trees);
    head.append(skills.as_str());
    let passives = write_passives(build, resolver, char_trees);
    head.append(passives.as_str());
    let mut r = Report::new();
    r.push_string(head);
    r.push_str("\n--- Equipment ---\n");
    write_equipment(&mut r, build, resolver);
    r.push_str("\n--- Idols ---\n");
    write_idols(&mut r, build, resolver);
    r.push_str("\n--- Blessings ---\n");
    write_blessings(&mut r, build, resolver);
    proof {
        assert(r@ =~= report_pieces(
            url@,
            *build,
            resolver@,
            opt_json(skill_trees),
            opt_json(char_trees),
        ));
    }
    r
}

} // verus!
