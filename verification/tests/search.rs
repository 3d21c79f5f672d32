use crates_no::name_order::name_precedes;
use crates_no::search::{search_results, unique_sorted_by_name, SearchResult};
use crates_no::text::{same_text, trim, white_space};

fn hit(name: &str, version: &str, description: Option<&str>) -> (String, String, Option<String>) {
    (name.to_string(), version.to_string(), description.map(|d| d.to_string()))
}

fn names(results: &[SearchResult]) -> Vec<String> {
    results.iter().map(|r| r.name.clone()).collect()
}

#[test]
fn result_from_hit() {
    let r = SearchResult::from(hit("serde", "1.0.0", Some("a framework")));
    assert_eq!(r.name, "serde");
    assert_eq!(r.version, "1.0.0");
    assert_eq!(r.description, Some("a framework".to_string()));
}

#[test]
fn results_are_sorted_by_name() {
    let r = search_results(vec![hit("tokio", "1", None), hit("serde", "1", None), hit("anyhow", "1", None)]);
    assert_eq!(names(&r), vec!["anyhow", "serde", "tokio"]);
}

#[test]
fn results_keep_the_first_of_each_name() {
    let r = search_results(vec![
        hit("serde", "1.0.0", Some("first")),
        hit("rand", "0.8.0", None),
        hit("serde", "0.9.0", Some("second")),
        hit("rand", "0.7.0", Some("other")),
    ]);
    assert_eq!(r.len(), 2);
    assert_eq!(r[0].name, "rand");
    assert_eq!(r[0].version, "0.8.0");
    assert_eq!(r[0].description, None);
    assert_eq!(r[1].name, "serde");
    assert_eq!(r[1].version, "1.0.0");
    assert_eq!(r[1].description, Some("first".to_string()));
}

#[test]
fn no_results() {
    assert!(search_results(Vec::new()).is_empty());
    assert!(unique_sorted_by_name(Vec::new()).is_empty());
}

#[test]
fn names_order_by_bytes() {
    let r = search_results(vec![hit("b", "1", None), hit("B", "1", None), hit("a", "1", None), hit("ab", "1", None)]);
    assert_eq!(names(&r), vec!["B", "a", "ab", "b"]);
}

#[test]
fn name_order() {
    assert!(name_precedes("a", "b"));
    assert!(!name_precedes("b", "a"));
    assert!(name_precedes("ab", "abc"));
    assert!(!name_precedes("abc", "ab"));
    assert!(!name_precedes("abc", "abc"));
    assert!(name_precedes("", "a"));
    assert!(name_precedes("Z", "a"));
    assert!(name_precedes("z", "é"));
}

#[test]
fn trimming() {
    assert_eq!(trim("  serde \t\n"), "serde");
    assert_eq!(trim("serde json"), "serde json");
    assert_eq!(trim("   "), "");
    assert_eq!(trim(""), "");
    assert_eq!(trim("\u{3000}x\u{a0}"), "x");
    assert_eq!(trim(trim(" a b ")), "a b");
}

#[test]
fn white_space_matches_std() {
    for c in ['\t', '\n', '\u{b}', '\u{c}', '\r', ' ', '\u{85}', '\u{a0}', '\u{1680}', '\u{2000}', '\u{200a}',
              '\u{2028}', '\u{2029}', '\u{202f}', '\u{205f}', '\u{3000}', 'a', '0', '\u{200b}', '\u{feff}', '_'] {
        assert_eq!(white_space(c), c.is_whitespace(), "{:?}", c);
    }
}

#[test]
fn same_text_compares_contents() {
    assert!(same_text("config.json", "config.json"));
    assert!(!same_text("config.json", "config.jso"));
    assert!(!same_text("a", "b"));
    assert!(same_text("", ""));
}

#[test]
fn results_do_not_depend_on_hit_order_across_names() {
    let a = search_results(vec![hit("tokio", "1", None), hit("serde", "2", Some("s")), hit("rand", "3", None)]);
    let b = search_results(vec![hit("rand", "3", None), hit("tokio", "1", None), hit("serde", "2", Some("s"))]);
    assert_eq!(names(&a), names(&b));
    assert_eq!(a.iter().map(|r| r.version.clone()).collect::<Vec<_>>(), b.iter().map(|r| r.version.clone()).collect::<Vec<_>>());
}
