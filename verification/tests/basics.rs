use vmm_sandboxer::json::{
    list_of_texts, parse, record, remove_member, set_member, take_member, texts_of_list,
    to_compact, to_pretty, Json,
};
use vmm_sandboxer::string_map::StringMap;
use vmm_sandboxer::text::{
    contains, contains_char, join, join_path, less, parse_u64, same, same_set, split_on,
    split_once, starts_with, strip_prefix, to_lower, trim, trim_end, u64_to_string,
};
use vmm_sandboxer::text_map::TextMap;

fn strings(v: &[&str]) -> Vec<String> {
    v.iter().map(|s| s.to_string()).collect()
}

#[test]
fn searching_in_texts() {
    assert!(same("a\u{e4}", "a\u{e4}"));
    assert!(!same("a", "ab"));
    assert!(starts_with("vcpu0", "vcpu"));
    assert_eq!(strip_prefix("vcpu0", "vcpu").as_deref(), Some("0"));
    assert_eq!(strip_prefix("cpu0", "vcpu"), None);
    assert!(contains("abcd", "bc"));
    assert!(contains("abcd", ""));
    assert!(!contains("abcd", "ca"));
    assert!(contains_char("a/b", '/'));
    assert!(less("a", "ab") && less("ab", "b") && !less("b", "b"));
}

#[test]
fn cutting_texts() {
    assert_eq!(split_on("a,,b", ','), ["a", "", "b"]);
    assert_eq!(split_on("", ','), [""]);
    assert_eq!(
        split_once("a-b-c", '-'),
        Some(("a".to_string(), "b-c".to_string()))
    );
    assert_eq!(split_once("abc", '-'), None);
    assert_eq!(join(&strings(&["a", "b"]), ", "), "a, b");
    assert_eq!(join(&vec![], ", "), "");
    assert_eq!(trim(" \t a b\n"), "a b");
    assert_eq!(trim_end(" a \r\n"), " a");
    assert_eq!(trim("\u{a0}x\u{2003}"), "x");
    assert_eq!(to_lower("ABC-x"), "abc-x");
}

#[test]
fn numbers_as_texts() {
    assert_eq!(parse_u64("0"), Some(0));
    assert_eq!(parse_u64("+7"), Some(7));
    assert_eq!(parse_u64("18446744073709551615"), Some(u64::MAX));
    assert_eq!(parse_u64("18446744073709551616"), None);
    for bad in ["", "+", "-1", "1 ", "0x1", "++1"] {
        assert_eq!(parse_u64(bad), None);
    }
    assert_eq!(u64_to_string(0), "0");
    assert_eq!(u64_to_string(u64::MAX), "18446744073709551615");
}

#[test]
fn paths() {
    assert_eq!(join_path("/a", "b"), "/a/b");
    assert_eq!(join_path("/a/", "b"), "/a/b");
    assert_eq!(join_path("/a", "/b"), "/b");
    assert_eq!(join_path("", "b"), "b");
}

#[test]
fn sets_of_texts() {
    assert!(same_set(&strings(&["a", "b", "a"]), &strings(&["b", "a"])));
    assert!(!same_set(&strings(&["a"]), &strings(&["a", "b"])));
}

#[test]
fn maps_of_texts() {
    let mut m = StringMap::new();
    assert!(m.is_empty());
    m.insert("p/a".to_string(), "1".to_string());
    m.insert("p/b".to_string(), "2".to_string());
    m.insert("p/a".to_string(), "3".to_string());
    assert_eq!(m.len(), 2);
    assert_eq!(m.get("p/a").unwrap(), "3");
    assert!(!m.contains_key("a"));
    let s = m.strip_keys("p/");
    assert_eq!(s.get("a").unwrap(), "3");
    let mut other = StringMap::new();
    other.insert("a".to_string(), "9".to_string());
    other.insert("c".to_string(), "4".to_string());
    let mut all = s.copy();
    all.extend(&other);
    assert_eq!(all.get("a").unwrap(), "9");
    assert_eq!(all.len(), 3);
    assert_eq!(s.len(), 2);
}

#[test]
fn maps_of_anything() {
    let mut m: TextMap<u32> = TextMap::new();
    m.insert("a".to_string(), 1);
    m.insert("a".to_string(), 2);
    m.insert("b".to_string(), 3);
    assert_eq!(m.get("a"), Some(&2));
    assert_eq!(m.entries().len(), 2);
    assert_eq!(m.remove("a"), Some(2));
    assert_eq!(m.remove("a"), None);
    assert_eq!(m.get("a"), None);
}

#[test]
fn reading_and_writing_json() {
    let j = parse(r#" {"b":[1,-2,0.5,null],"a":{"x":"y"},"b":true} "#).unwrap();
    // Of two members with one name the later counts; members come by their names.
    assert_eq!(to_compact(&j), r#"{"a":{"x":"y"},"b":true}"#);
    assert_eq!(
        to_pretty(&parse(r#"{"a":[1]}"#).unwrap()),
        "{\n  \"a\": [\n    1\n  ]\n}"
    );
    assert!(parse("{").is_none());
    assert!(parse("").is_none());
    let list = parse("[1,-2,0.5,null]").unwrap();
    assert_eq!(to_compact(&list), "[1,-2,0.5,null]");
    assert_eq!(parse(r#"{"n":3}"#).unwrap().get_whole("n"), Some(3));
    assert_eq!(parse(r#"{"n":-3}"#).unwrap().get_whole("n"), None);
    assert_eq!(parse(r#"{"n":3.0}"#).unwrap().get_whole("n"), None);
}

#[test]
fn members_of_records() {
    let j = parse(r#"{"a":1,"b":"x"}"#).unwrap();
    assert_eq!(j.get_text("b").unwrap(), "x");
    assert!(j.get_text("a").is_none());
    assert!(j.get("c").is_none());
    let j = set_member(j, "c", Json::Bool(true));
    let j = set_member(j, "a", Json::Null);
    assert_eq!(to_compact(&j), r#"{"a":null,"b":"x","c":true}"#);
    let mut j = remove_member(j, "b");
    assert_eq!(to_compact(&j), r#"{"a":null,"c":true}"#);
    assert!(matches!(
        take_member(&mut j, "c"),
        Some(Json::Bool(true))
    ));
    // What was taken leaves `null` in its place.
    assert_eq!(to_compact(&j), r#"{"a":null,"c":null}"#);
    assert!(take_member(&mut j, "d").is_none());
    let built = record(vec![
        ("z".to_string(), Json::Null),
        ("y".to_string(), list_of_texts(&strings(&["p", "q"]))),
    ]);
    assert_eq!(to_compact(&built), r#"{"y":["p","q"],"z":null}"#);
    assert_eq!(
        texts_of_list(parse(r#"["p","q"]"#).unwrap()),
        Some(strings(&["p", "q"]))
    );
    assert!(texts_of_list(parse(r#"["p",1]"#).unwrap()).is_none());
}
