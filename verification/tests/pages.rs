use crates_no::page_generator::{directory_for_name, has_directory_for_name, PageGenerator};
use crates_no::paths::join_path;
use crates_no::site::Config;

#[test]
fn directory_of_short_names() {
    assert_eq!(directory_for_name("a"), "1");
    assert_eq!(directory_for_name("ab"), "2");
    assert_eq!(directory_for_name("abc"), "3");
}

#[test]
fn directory_of_long_names() {
    assert_eq!(directory_for_name("abcd"), "ab/cd");
    assert_eq!(directory_for_name("serde"), "se/rd");
    assert_eq!(directory_for_name("tokio-core"), "to/ki");
}

#[test]
fn directory_counts_bytes_not_characters() {
    // "é" is two bytes long.
    assert_eq!(directory_for_name("é"), "2");
    assert_eq!(directory_for_name("éé"), "é/é");
}

#[test]
fn directory_defined_only_on_whole_characters() {
    assert!(!has_directory_for_name(""));
    assert!(has_directory_for_name("a"));
    assert!(has_directory_for_name("abcd"));
    // The second byte of "aé" splits the "é".
    assert!(!has_directory_for_name("aébc"));
    // The fourth byte splits the second "é".
    assert!(!has_directory_for_name("abcéd"));
    assert!(has_directory_for_name("abé"));
}

#[test]
fn joining_paths() {
    assert_eq!(join_path("pages", "crates"), "pages/crates");
    assert_eq!(join_path("pages/", "crates"), "pages/crates");
    assert_eq!(join_path("", "crates"), "crates");
    assert_eq!(join_path("pages", "/abs"), "/abs");
    assert_eq!(join_path("pages", ""), "pages/");
}

#[test]
fn generator_directories() {
    let g = PageGenerator::new("./pages");
    assert_eq!(g.crates_dir(), "./pages/crates");
    assert_eq!(g.letters_dir(), "./pages/letters");
    let g = PageGenerator::new("/srv/www/");
    assert_eq!(g.crates_dir(), "/srv/www/crates");
    assert_eq!(g.letters_dir(), "/srv/www/letters");
}

#[test]
fn crate_pages_use_the_lowercase_name() {
    let g = PageGenerator::new("pages");
    assert_eq!(
        g.crate_page("Serde"),
        Some(("pages/crates/se/rd".to_string(), "pages/crates/se/rd/serde".to_string()))
    );
    assert_eq!(
        g.crate_page("ab"),
        Some(("pages/crates/2".to_string(), "pages/crates/2/ab".to_string()))
    );
    assert_eq!(
        g.crate_page("R"),
        Some(("pages/crates/1".to_string(), "pages/crates/1/r".to_string()))
    );
    assert_eq!(g.crate_page(""), None);
}

#[test]
fn letter_pages() {
    let g = PageGenerator::new("pages");
    assert_eq!(g.letter_page("s"), "pages/letters/s");
}

#[test]
fn site_config() {
    let c = Config::new("./pages");
    assert_eq!(c.indiv_crate_dir, "./pages/crates");
    assert_eq!(c.letters_dir, "./pages/letters");
    assert_eq!(c.letter_page("t"), "./pages/letters/t");
    assert_eq!(c.crate_page("tokio"), Some("./pages/crates/to/ki/tokio".to_string()));
    // The web front end does not lowercase the name it is asked for.
    assert_eq!(c.crate_page("Tokio"), Some("./pages/crates/To/ki/Tokio".to_string()));
    assert_eq!(c.crate_page(""), None);
}

#[test]
fn generated_page_is_served_under_the_lowercase_name() {
    let g = PageGenerator::new("site");
    let c = Config::new("site");
    for name in ["Serde", "rand", "Ab", "x", "Tokio-Core"] {
        let (_, file) = g.crate_page(name).unwrap();
        assert_eq!(Some(file), c.crate_page(&name.to_lowercase()));
    }
}

#[test]
fn crate_names_share_a_directory_only_by_their_first_four_characters() {
    assert_eq!(directory_for_name("serde"), directory_for_name("serde_json"));
    assert_eq!(directory_for_name("serd"), directory_for_name("serde-value"));
    assert_ne!(directory_for_name("serde"), directory_for_name("seRde"));
    assert_ne!(directory_for_name("abc"), directory_for_name("ab"));
    assert_ne!(directory_for_name("abc"), directory_for_name("abcd"));
    assert_eq!(directory_for_name("x_y"), directory_for_name("a-b"));
}
