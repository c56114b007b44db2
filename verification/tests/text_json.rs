use last_epoch_build_as_plaintext::json::{
    as_array_of, as_bool_of, as_f64_bits_of, as_object_of, as_str_of, as_u64_of, get_in, index_in,
    json_to_text, Json, JsonNumber,
};
use last_epoch_build_as_plaintext::sorting::sort_stable;
use last_epoch_build_as_plaintext::text::{
    chars_vec, clean_html, dec_text, join, parse_u32_or_zero, parse_u8, parse_unsigned_exec,
    replace_char, starts_with, str_eq,
};

fn num(v: u64) -> Json {
    Json::Number(JsonNumber { as_u64: Some(v), f64_bits: (v as f64).to_bits(), text: v.to_string() })
}

fn float(v: f64, text: &str) -> Json {
    Json::Number(JsonNumber { as_u64: None, f64_bits: v.to_bits(), text: text.to_string() })
}

fn s(x: &str) -> Json {
    Json::Str(x.to_string())
}

fn obj(members: Vec<(&str, Json)>) -> Json {
    Json::Object(members.into_iter().map(|(k, v)| (k.to_string(), v)).collect())
}

#[test]
fn dec_text_renders_decimal() {
    assert_eq!(dec_text(0), "0");
    assert_eq!(dec_text(7), "7");
    assert_eq!(dec_text(42), "42");
    assert_eq!(dec_text(1000), "1000");
    assert_eq!(dec_text(u64::MAX), "18446744073709551615");
}

#[test]
fn parse_unsigned_accepts_digits_and_plus() {
    assert_eq!(parse_unsigned_exec("123", u64::MAX), Some(123));
    assert_eq!(parse_unsigned_exec("+5", 255), Some(5));
    assert_eq!(parse_unsigned_exec("007", 255), Some(7));
    assert_eq!(parse_unsigned_exec("", 255), None);
    assert_eq!(parse_unsigned_exec("+", 255), None);
    assert_eq!(parse_unsigned_exec("-1", 255), None);
    assert_eq!(parse_unsigned_exec("12a", 255), None);
    assert_eq!(parse_unsigned_exec(" 1", 255), None);
}

#[test]
fn parse_unsigned_respects_bounds() {
    assert_eq!(parse_u8("255"), Some(255));
    assert_eq!(parse_u8("256"), None);
    assert_eq!(parse_u32_or_zero("4294967295"), 4294967295);
    assert_eq!(parse_u32_or_zero("4294967296"), 0);
    assert_eq!(parse_u32_or_zero("abc"), 0);
    assert_eq!(parse_unsigned_exec("18446744073709551615", u64::MAX), Some(u64::MAX));
    assert_eq!(parse_unsigned_exec("18446744073709551616", u64::MAX), None);
}

#[test]
fn parse_agrees_with_std() {
    for text in ["0", "1", "+9", "255", "256", "", "+", "x", "99999"] {
        assert_eq!(parse_u8(text), text.parse::<u8>().ok(), "{}", text);
        assert_eq!(parse_u32_or_zero(text), text.parse::<u32>().unwrap_or(0), "{}", text);
    }
}

#[test]
fn parse_of_dec_gives_the_number_back() {
    for n in [0u64, 9, 10, 255, 65536, 123456789] {
        assert_eq!(parse_unsigned_exec(&dec_text(n), u64::MAX), Some(n));
    }
}

#[test]
fn join_puts_separator_between_parts() {
    let parts = vec!["a".to_string(), "b".to_string(), "c".to_string()];
    assert_eq!(join(&parts, ", "), "a, b, c");
    assert_eq!(join(&vec!["only".to_string()], ", "), "only");
    assert_eq!(join(&Vec::new(), ", "), "");
}

#[test]
fn replace_char_replaces_every_occurrence() {
    assert_eq!(replace_char("a\nb\nc", '\n', "\n      "), "a\n      b\n      c");
    assert_eq!(replace_char("none", '\n', "X"), "none");
}

#[test]
fn starts_with_and_str_eq() {
    assert!(starts_with("Skills.Skill_x", "Skills."));
    assert!(!starts_with("Skill", "Skills."));
    assert!(starts_with("abc", ""));
    assert!(str_eq("abc", "abc"));
    assert!(!str_eq("abc", "abd"));
    assert_eq!(chars_vec("héllo"), vec!['h', 'é', 'l', 'l', 'o']);
}

#[test]
fn clean_html_removes_tags() {
    assert_eq!(clean_html("Deals <b>fire</b> damage"), "Deals fire damage");
    assert_eq!(clean_html("<i>all</i>"), "all");
    assert_eq!(clean_html("a > b"), "a  b");
    assert_eq!(clean_html("unclosed <tag"), "unclosed ");
    assert_eq!(clean_html(""), "");
}

#[test]
fn clean_html_is_idempotent() {
    for text in ["<b>x</b>y", "a > b", "<<x>>z", "plain", "x<y"] {
        let once = clean_html(text);
        assert_eq!(clean_html(&once), once);
    }
}

#[test]
fn json_accessors() {
    let doc = obj(vec![
        ("name", s("Bob")),
        ("level", num(90)),
        ("ratio", float(0.5, "0.5")),
        ("alive", Json::Bool(true)),
        ("list", Json::Array(vec![num(1), num(2)])),
        ("inner", obj(vec![("k", s("v"))])),
    ]);
    assert_eq!(as_str_of(doc.get("name")).map(|x| x.as_str()), Some("Bob"));
    assert_eq!(as_u64_of(doc.get("level")), Some(90));
    assert_eq!(as_u64_of(doc.get("ratio")), None);
    assert_eq!(as_f64_bits_of(doc.get("ratio")), Some(0.5f64.to_bits()));
    assert_eq!(as_bool_of(doc.get("alive")), Some(true));
    assert_eq!(as_array_of(doc.get("list")).map(|v| v.len()), Some(2));
    assert_eq!(as_u64_of(index_in(doc.get("list"), 1)), Some(2));
    assert!(index_in(doc.get("list"), 2).is_none());
    assert!(as_object_of(doc.get("inner")).is_some());
    assert_eq!(as_str_of(get_in(doc.get("inner"), "k")).map(|x| x.as_str()), Some("v"));
    assert!(get_in(doc.get("missing"), "k").is_none());
    assert!(doc.get("missing").is_none());
    assert!(s("x").get("name").is_none());
    assert!(Json::Null.is_null());
    assert!(!num(1).is_null());
}

#[test]
fn json_get_takes_first_member_with_the_key() {
    let doc = obj(vec![("k", num(1)), ("k", num(2))]);
    assert_eq!(as_u64_of(doc.get("k")), Some(1));
}

#[test]
fn json_to_text_is_compact() {
    let doc = obj(vec![
        ("a", num(1)),
        ("b", Json::Array(vec![Json::Null, Json::Bool(false), float(1.5, "1.5")])),
        ("c", s("q\"\\\n\t\u{1}")),
        ("d", obj(vec![])),
        ("e", Json::Array(vec![])),
    ]);
    assert_eq!(
        json_to_text(&doc),
        "{\"a\":1,\"b\":[null,false,1.5],\"c\":\"q\\\"\\\\\\n\\t\\u0001\",\"d\":{},\"e\":[]}"
    );
    assert_eq!(json_to_text(&s("\u{8}\u{c}\r\u{1f}é")), "\"\\b\\f\\r\\u001fé\"");
}

#[test]
fn sort_stable_orders_by_key_keeping_ties() {
    let items = vec![(3, 0), (1, 1), (3, 2), (0, 3), (1, 4)];
    assert_eq!(sort_stable(&items), vec![(0, 3), (1, 1), (1, 4), (3, 0), (3, 2)]);
    assert_eq!(sort_stable(&Vec::new()), Vec::<(u64, usize)>::new());
}

#[test]
fn clean_html_only_deletes() {
    assert_eq!(clean_html("<b>Hi</b> there"), "Hi there");
    for text in ["no tags here", "", "a b c"] {
        assert_eq!(clean_html(text), text);
    }
    let input = "x<y>z>w<v";
    let out = clean_html(input);
    let mut rest = input.chars();
    assert!(out.chars().all(|c| rest.any(|d| d == c)));
}
