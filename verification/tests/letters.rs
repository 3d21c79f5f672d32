use crates_no::letters::{first_letter, LetterIndex};

#[test]
fn first_letters() {
    assert_eq!(first_letter("Serde"), Some("s".to_string()));
    assert_eq!(first_letter("tokio"), Some("t".to_string()));
    assert_eq!(first_letter("_private"), Some("_".to_string()));
    assert_eq!(first_letter(""), None);
    assert_eq!(first_letter("éclair"), None);
}

#[test]
fn crates_are_filed_by_letter_in_order() {
    let mut index = LetterIndex::new();
    assert!(index.record("serde", "1.0.0"));
    assert!(index.record("Syn", "2.0.0"));
    assert!(index.record("tokio", "1.0.0"));
    assert!(index.record("serde_json", "1.0.1"));
    let groups = index.into_groups();
    assert_eq!(groups.len(), 2);
    let s = groups.iter().find(|g| g.0 == "s").unwrap();
    assert_eq!(
        s.1,
        vec![
            ("serde".to_string(), "1.0.0".to_string()),
            ("Syn".to_string(), "2.0.0".to_string()),
            ("serde_json".to_string(), "1.0.1".to_string()),
        ]
    );
    let t = groups.iter().find(|g| g.0 == "t").unwrap();
    assert_eq!(t.1, vec![("tokio".to_string(), "1.0.0".to_string())]);
}

#[test]
fn unfileable_names_leave_the_index_alone() {
    let mut index = LetterIndex::new();
    assert!(!index.record("", "1"));
    assert!(!index.record("éclair", "1"));
    assert!(index.into_groups().is_empty());
}

#[test]
fn adding_under_a_letter() {
    let mut index = LetterIndex::new();
    index.add("x".to_string(), "xml".to_string(), "0.1".to_string());
    index.add("x".to_string(), "xz".to_string(), "0.2".to_string());
    let groups = index.into_groups();
    assert_eq!(groups.len(), 1);
    assert_eq!(groups[0].0, "x");
    assert_eq!(groups[0].1.len(), 2);
    assert_eq!(groups[0].1[1].0, "xz");
}
