use code_scanner::config::{unique_texts, ProjectConfig, DEFAULT_MAX_FILE_SIZE};

fn strings(items: &[&str]) -> Vec<String> {
    items.iter().map(|s| s.to_string()).collect()
}

fn sorted(mut v: Vec<String>) -> Vec<String> {
    v.sort();
    v.dedup();
    v
}

#[test]
fn apply_overrides_replaces_non_empty_fields() {
    let mut base = ProjectConfig::default();
    let overrides = ProjectConfig {
        code_extensions: strings(&["rs"]),
        ignore_dirs: Vec::new(),
        ignore_files: strings(&["custom.lock"]),
        ignore_extensions: Vec::new(),
        max_file_size: 123,
    };

    base.apply_overrides(overrides);

    assert_eq!(sorted(base.code_extensions.clone()), strings(&["rs"]));
    assert_eq!(sorted(base.ignore_files.clone()), strings(&["custom.lock"]));
    assert_eq!(base.max_file_size, 123);
    assert!(base.ignore_dirs.iter().any(|d| d == "node_modules"));
}

#[test]
fn empty_overrides_keep_the_defaults() {
    let mut base = ProjectConfig::default();
    let before = ProjectConfig::default();
    base.apply_overrides(ProjectConfig {
        code_extensions: Vec::new(),
        ignore_dirs: Vec::new(),
        ignore_files: Vec::new(),
        ignore_extensions: Vec::new(),
        max_file_size: 0,
    });
    assert_eq!(base.code_extensions, before.code_extensions);
    assert_eq!(base.ignore_dirs, before.ignore_dirs);
    assert_eq!(base.ignore_files, before.ignore_files);
    assert_eq!(base.ignore_extensions, before.ignore_extensions);
    assert_eq!(base.max_file_size, DEFAULT_MAX_FILE_SIZE);
}

#[test]
fn default_filters() {
    let config = ProjectConfig::default();
    assert_eq!(config.max_file_size, 1_048_576);
    assert!(config.ignore_dirs.iter().any(|d| d == "node_modules"));
    assert!(config.ignore_files.iter().any(|f| f == "package-lock.json"));
    assert!(config.ignore_files.iter().any(|f| f == "yarn.lock"));
    assert!(config.ignore_extensions.iter().any(|e| e == "png"));
    assert!(config.code_extensions.iter().any(|e| e == "rs"));
}

#[test]
fn ignored_extensions_from_the_command_line_are_normalized() {
    let mut config = ProjectConfig::default();
    let code_before = config.code_extensions.clone();
    config.ignore_extensions(&strings(&[".TS", "..Js", "json", "Ä"]));
    for ext in ["ts", "js", "json", "ä", "png"] {
        assert!(config.ignore_extensions.iter().any(|e| e == ext), "missing {ext}");
    }
    assert!(!config.ignore_extensions.iter().any(|e| e == ".ts" || e == "TS"));
    assert_eq!(config.code_extensions, code_before);
}

#[test]
fn default_lists_decide_the_original_examples() {
    let config = ProjectConfig::default();
    let has = |list: &Vec<String>, s: &str| list.iter().any(|x| x == s);
    for ext in ["rs", "txt", "ts", "md", "js", "json"] {
        assert!(has(&config.code_extensions, ext), "{ext} counts as code");
    }
    assert!(!has(&config.code_extensions, "tmp"));
    assert!(!has(&config.code_extensions, "env"));
    assert!(!has(&config.code_extensions, ".env"));
    assert!(has(&config.ignore_extensions, "lock"));
    assert!(!has(&config.ignore_extensions, "rs"));
    assert_eq!(config.code_extensions.len(), 38);
    assert_eq!(config.ignore_dirs.len(), 10);
    assert_eq!(config.ignore_files.len(), 5);
    assert_eq!(config.ignore_extensions.len(), 28);
}

#[test]
fn configuration_lists_name_each_entry_once() {
    assert_eq!(
        unique_texts(&strings(&["rs", "md", "rs", "txt", "md"])),
        strings(&["rs", "md", "txt"])
    );
    assert!(unique_texts(&Vec::new()).is_empty());
    let mut config = ProjectConfig::default();
    let before = config.ignore_extensions.len();
    config.ignore_extensions(&strings(&["png", ".PNG", "tmp", "TMP"]));
    assert_eq!(config.ignore_extensions.len(), before + 1);
    let defaults = ProjectConfig::default();
    for list in [&defaults.code_extensions, &defaults.ignore_dirs, &defaults.ignore_files, &defaults.ignore_extensions] {
        let unique = unique_texts(list);
        assert_eq!(unique.len(), list.len());
    }
}
