use crates_no::crates_io_client::crate_api_url;
use crates_no::walk::{admits_entry, is_config_json, is_hidden_file, ENTRY_LIMIT};

#[test]
fn hidden_files() {
    assert!(is_hidden_file(Some(".git")));
    assert!(is_hidden_file(Some(".")));
    assert!(!is_hidden_file(Some("serde")));
    assert!(!is_hidden_file(Some("")));
    assert!(!is_hidden_file(None));
}

#[test]
fn config_file() {
    assert!(is_config_json(Some("config.json")));
    assert!(!is_config_json(Some("config.json5")));
    assert!(!is_config_json(Some("Config.json")));
    assert!(!is_config_json(None));
}

#[test]
fn admitted_entries() {
    assert!(admits_entry(Some("serde")));
    assert!(admits_entry(Some("se")));
    assert!(!admits_entry(Some("config.json")));
    assert!(!admits_entry(Some(".github")));
    assert!(admits_entry(None));
    assert_eq!(ENTRY_LIMIT, 2000);
}

#[test]
fn api_address() {
    assert_eq!(crate_api_url("serde"), "https://crates.io/api/v1/crates/serde");
    assert_eq!(crate_api_url(""), "https://crates.io/api/v1/crates/");
}
