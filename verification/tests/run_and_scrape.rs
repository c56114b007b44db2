use last_epoch_build_as_plaintext::json::{Json, JsonNumber};
use last_epoch_build_as_plaintext::page_text::{page_equipment, page_list, page_report, page_skills, page_stats};
use last_epoch_build_as_plaintext::sub_logic::idols_scraper::{
    idol_page_url, scraped_text, IdolScrape, IDOL_PAGES,
};
use last_epoch_build_as_plaintext::sub_logic::{
    default_output_path_for, get_mastery_name, next_poll, payload_ready, payload_text, plan_run,
    write_character_info, Args, PayloadError, PollAction, RunError, RunPlan, PAYLOAD_POLLS,
};

fn num(v: u64) -> Json {
    Json::Number(JsonNumber { as_u64: Some(v), f64_bits: (v as f64).to_bits(), text: v.to_string() })
}

fn s(x: &str) -> Json {
    Json::Str(x.to_string())
}

fn obj(members: Vec<(&str, Json)>) -> Json {
    Json::Object(members.into_iter().map(|(k, v)| (k.to_string(), v)).collect())
}

fn args(url: Option<&str>, idols: bool, output: Option<&str>) -> Args {
    Args { url: url.map(|u| u.to_string()), idols, output: output.map(|o| o.to_string()) }
}

#[test]
fn plan_idols_when_asked() {
    assert!(matches!(plan_run(&args(None, true, None)), Ok(RunPlan::Idols)));
    assert!(matches!(plan_run(&args(Some("u"), true, None)), Ok(RunPlan::Idols)));
}

#[test]
fn plan_needs_a_url() {
    let r = plan_run(&args(None, false, None));
    assert!(matches!(r, Err(RunError::MissingUrl)));
    assert_eq!(RunError::MissingUrl.message(), "URL is required when not using --idols");
}

#[test]
fn plan_build_with_default_output() {
    match plan_run(&args(Some("https://www.lastepochtools.com/planner/o3ZbjxKn"), false, None)) {
        Ok(RunPlan::Build { url, output_path }) => {
            assert_eq!(url, "https://www.lastepochtools.com/planner/o3ZbjxKn");
            assert_eq!(output_path, "builds/o3ZbjxKn.txt");
        },
        _ => panic!("expected a build plan"),
    }
}

#[test]
fn plan_build_with_given_output() {
    match plan_run(&args(Some("https://x/planner/a"), false, Some("out.txt"))) {
        Ok(RunPlan::Build { url, output_path }) => {
            assert_eq!(url, "https://x/planner/a");
            assert_eq!(output_path, "out.txt");
        },
        _ => panic!("expected a build plan"),
    }
}

#[test]
fn default_output_paths() {
    assert_eq!(default_output_path_for("https://a/planner/abc"), "builds/abc.txt");
    assert_eq!(default_output_path_for("https://a/planner/abc/"), "builds/abc.txt");
    assert_eq!(default_output_path_for("https://a/planner/abc///"), "builds/abc.txt");
    assert_eq!(default_output_path_for("plain"), "builds/plain.txt");
    assert_eq!(default_output_path_for(""), "builds/.txt");
    assert_eq!(default_output_path_for("///"), "builds/.txt");
}

#[test]
fn trailing_slash_does_not_change_output_path() {
    for url in ["https://a/p/x", "x", "", "a/b/"] {
        let with = format!("{}/", url);
        assert_eq!(default_output_path_for(&with), default_output_path_for(url));
    }
}

#[test]
fn mastery_names() {
    assert_eq!(get_mastery_name(0, 0), "Primalist");
    assert_eq!(get_mastery_name(1, 3), "Runemaster");
    assert_eq!(get_mastery_name(2, 1), "Void Knight");
    assert_eq!(get_mastery_name(3, 1), "Necromancer");
    assert_eq!(get_mastery_name(3, 2), "Lich");
    assert_eq!(get_mastery_name(4, 3), "Falconer");
    assert_eq!(get_mastery_name(4, 4), "Unknown Category");
    assert_eq!(get_mastery_name(5, 0), "Unknown Category");
}

#[test]
fn idol_pages_in_order() {
    assert_eq!(IDOL_PAGES, 27);
    assert_eq!(idol_page_url(0), "https://www.lastepochtools.com/db/category/idols11/items");
    assert_eq!(idol_page_url(4), "https://www.lastepochtools.com/db/category/idols11_2/prefixes");
    assert_eq!(idol_page_url(26), "https://www.lastepochtools.com/db/category/idols22/suffixes");
    let mut urls: Vec<String> = (0..IDOL_PAGES).map(idol_page_url).collect();
    urls.sort();
    urls.dedup();
    assert_eq!(urls.len(), 27);
}

#[test]
fn scraped_text_of_results() {
    assert_eq!(scraped_text(Some(&s("- a | b"))), "- a | b");
    assert_eq!(scraped_text(Some(&num(3))), "No string returned");
    assert_eq!(scraped_text(Some(&Json::Null)), "No string returned");
    assert_eq!(scraped_text(None), "No data returned");
}

#[test]
fn idol_scrape_visits_every_page_once() {
    let mut scrape = IdolScrape::new();
    let mut visited = 0;
    while let Some(url) = scrape.next_url() {
        assert_eq!(url, idol_page_url(visited));
        if visited == 1 {
            scrape.record(None);
        } else {
            scrape.record(Some(&s("- found")));
        }
        visited += 1;
    }
    assert_eq!(visited, 27);
    assert_eq!(scrape.page, 27);
    assert!(scrape.output.starts_with("=== idols11/items ===\n- found\n\n=== idols11/prefixes ===\nNo data returned\n\n"));
    assert!(scrape.output.ends_with("=== idols22/suffixes ===\n- found\n\n"));
    assert_eq!(scrape.output.matches("=== ").count(), 27);
}

#[test]
fn page_stats_text() {
    let page = obj(vec![
        ("class", s("Class: Mage")),
        ("level", s("Level: 90")),
        ("attributes", obj(vec![("Strength", s("Strength 5")), ("Bad", num(1))])),
        ("resistances", obj(vec![("Fire", s("Fire 75%"))])),
    ]);
    assert_eq!(
        page_stats(&page),
        "Class: Mage\nLevel: 90\n\nAttributes:\nStrength: Strength 5\n\nResistances:\nFire: Fire 75%\n"
    );
    assert_eq!(page_stats(&s("{\"class\":\"x\"}")), "\nAttributes:\n\nResistances:\n");
}

#[test]
fn page_lists() {
    let names = Json::Array(vec![s("Fireball"), num(2), s("Teleport")]);
    assert_eq!(page_skills(&names), "- Fireball\n- Teleport\n");
    assert_eq!(
        page_skills(&s("[\"Fireball\"]")),
        "No skills found (extraction logic needs refinement based on DOM)."
    );
    assert_eq!(
        page_equipment(&Json::Array(vec![])),
        "No equipment found (extraction logic needs refinement based on DOM)."
    );
    assert_eq!(page_list(&Json::Array(vec![s("Ring")]), "none"), "- Ring\n");
}

#[test]
fn page_report_layout() {
    assert_eq!(
        page_report("u", "S\n", "K\n", "E\n"),
        "Build Data for u\n\n--- Character Stats ---\nS\n\n\n--- Skills & Passives ---\nK\n\n\n--- Equipment ---\nE\n\n"
    );
}

fn bio_build(class_id: u64, mastery_id: u64) -> Json {
    obj(vec![(
        "data",
        obj(vec![("bio", obj(vec![("characterClass", num(class_id)), ("chosenMastery", num(mastery_id))]))]),
    )])
}

#[test]
fn header_and_passive_tree_name_masteries_alike() {
    for class_id in [0u8, 1, 2, 4] {
        let header = write_character_info(&bio_build(class_id as u64, 0));
        assert!(header.contains(&format!("Class: {}\n", get_mastery_name(class_id, 0))));
        for mastery_id in 1u64..=3 {
            let header = write_character_info(&bio_build(class_id as u64, mastery_id));
            assert!(header.contains(&format!("Mastery: {}\n", get_mastery_name(class_id, mastery_id))));
        }
    }
    let acolyte = write_character_info(&bio_build(3, 1));
    assert!(acolyte.contains("Mastery: Lich\n"));
    assert_eq!(get_mastery_name(3, 1), "Necromancer");
}

#[test]
fn planner_payload_polling() {
    assert_eq!(PAYLOAD_POLLS, 15);
    assert!(!payload_ready(None));
    assert!(!payload_ready(Some(&Json::Null)));
    assert!(payload_ready(Some(&s("{}"))));
    assert!(payload_ready(Some(&num(0))));
}

#[test]
fn planner_payload_text() {
    assert_eq!(payload_text(Some(&s("{\"data\":1}"))), Ok("{\"data\":1}".to_string()));
    assert_eq!(payload_text(Some(&obj(vec![("data", num(1))]))), Ok("{\"data\":1}".to_string()));
    assert_eq!(payload_text(Some(&Json::Null)), Err(PayloadError::NotFound));
    assert_eq!(payload_text(None), Err(PayloadError::NoValue));
    assert_eq!(PayloadError::NotFound.message(), "fetch intercepted payload not found on page");
    assert_eq!(PayloadError::NoValue.message(), "No value returned from script");
}

#[test]
fn planner_payload_poll_steps() {
    assert_eq!(next_poll(0, None), PollAction::Wait);
    assert_eq!(next_poll(0, Some(&Json::Null)), PollAction::Wait);
    assert_eq!(next_poll(14, Some(&Json::Null)), PollAction::Wait);
    assert_eq!(next_poll(15, Some(&Json::Null)), PollAction::Stop);
    assert_eq!(next_poll(3, Some(&s("{}"))), PollAction::Stop);
    let mut retries = 0;
    while next_poll(retries, None) == PollAction::Wait {
        retries += 1;
    }
    assert_eq!(retries, PAYLOAD_POLLS);
}

#[test]
fn mastery_group_names_are_distinct() {
    let mut names = Vec::new();
    for c in 0u8..=4 {
        for m in 0u64..=3 {
            let n = get_mastery_name(c, m);
            assert_ne!(n, "Unknown Category");
            names.push(n);
        }
    }
    names.sort();
    names.dedup();
    assert_eq!(names.len(), 20);
}
