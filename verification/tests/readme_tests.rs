use code_scanner::config::EXAMPLE_CONFIG;
use serde_json::Value;

/// README references the example configuration, the template users copy into a project as
/// `.scanner-config.json`. The repository ships it with the library as `config::EXAMPLE_CONFIG`,
/// so it must exist there.
#[test]
fn scanner_config_example_exists_in_repo() {
    assert!(
        !EXAMPLE_CONFIG.trim().is_empty(),
        "the example configuration must exist (referenced in README); looked at: {}",
        "code_scanner::config::EXAMPLE_CONFIG"
    );
}

/// The example uses exactly the supported keys, and writes extensions without a leading dot.
#[test]
fn example_config_uses_supported_keys() {
    let json: Value = serde_json::from_str(EXAMPLE_CONFIG).expect("parse example config json");
    let object = json.as_object().expect("example config must be a JSON object");
    let mut keys: Vec<&str> = object.keys().map(|k| k.as_str()).collect();
    keys.sort();
    assert_eq!(
        keys,
        vec!["code_extensions", "ignore_dirs", "ignore_extensions", "ignore_files", "max_file_size"]
    );
    for key in ["code_extensions", "ignore_extensions"] {
        let entries = object[key].as_array().expect("extension lists must be arrays");
        assert!(entries.iter().all(|e| !e.as_str().unwrap_or(".").starts_with('.')));
    }
}
