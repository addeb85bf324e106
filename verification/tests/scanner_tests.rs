use code_scanner::config::ProjectConfig;
use code_scanner::scanner::{
    analysis_extension_label, classify_name, compared_name_and_extension, estimate_tokens,
    file_extension, is_ignored_dir, language_for_extension, numbered_line, over_size_limit,
    path_for_part, text_counts, tree_line, AnalysisBuilder, LocStats, ReportCounter, ScanStats,
    SkipReason,
};
use code_scanner::utils::has_null_byte;
use code_scanner::scanner::{entry_kind, next_file_step, EntryKind, FileStep, ReportEvent, ScanKind};
use code_scanner::project::{detect_project_type, is_single_project_root};

/// What the filters say of a file named `name` holding `content`: `None` when it is counted.
fn verdict(config: &ProjectConfig, name: &str, content: &[u8], check_hidden: bool) -> Option<SkipReason> {
    let (lower, ext) = compared_name_and_extension(name);
    if let Some(reason) = classify_name(config, &lower, &ext, check_hidden) {
        return Some(reason);
    }
    if over_size_limit(config, content.len() as u64) {
        return Some(SkipReason::OverMaxFileSize);
    }
    let prefix = &content[..content.len().min(1024)];
    if has_null_byte(prefix) {
        return Some(SkipReason::BinaryFile);
    }
    None
}

#[test]
fn loc_stats_count_lines_and_skip_ignored_files() {
    let config = ProjectConfig::default();
    let files: Vec<(&str, Vec<u8>)> = vec![
        ("main.rs", b"line1\nline2\nline3\n".to_vec()),
        ("notes.txt", b"a\nb\n".to_vec()),
        ("yarn.lock", b"lock".to_vec()),
        ("image.png", vec![137u8, 80, 78, 71]),
        ("binary.rs", vec![0u8, 1, 2]),
    ];
    assert!(is_ignored_dir(&config, "node_modules"));
    assert!(!is_ignored_dir(&config, "src"));

    let mut stats = LocStats::new();
    for (name, content) in &files {
        match verdict(&config, name, content, false) {
            Some(_) => stats.record_skip(),
            None => {
                let text = std::str::from_utf8(content).expect("utf-8");
                let (lines, chars) = text_counts(text);
                stats.record_file(name.to_string(), lines, chars, content.len() as u64);
            }
        }
    }
    stats.finish();

    assert_eq!(stats.processed_files, 2);
    assert_eq!(stats.skipped_files, 3);
    assert_eq!(stats.total_lines, 5);
    assert_eq!(stats.total_chars, 22);
    assert_eq!(stats.estimated_tokens, 6);
    assert_eq!(stats.largest_files[0].lines, 3);
    assert_eq!(stats.largest_files[1].lines, 2);
}

#[test]
fn loc_top_list_keeps_ten_files_with_most_lines() {
    let mut stats = LocStats::new();
    for i in 0..15u64 {
        stats.record_file(format!("f{i}.rs"), i % 7, 1, 1);
    }
    assert_eq!(stats.largest_files.len(), 10);
    let lines: Vec<u64> = stats.largest_files.iter().map(|f| f.lines).collect();
    assert_eq!(lines, vec![6, 6, 5, 5, 4, 4, 3, 3, 2, 2]);
    // Files with equal counts keep their arrival order.
    assert_eq!(stats.largest_files[0].path, "f6.rs");
    assert_eq!(stats.largest_files[1].path, "f13.rs");
}

#[test]
fn skip_reasons_follow_the_filters_in_order() {
    let config = ProjectConfig::default();
    let check = |name: &str, content: &[u8]| verdict(&config, name, content, true);
    assert!(matches!(check("yarn.lock", b"lock"), Some(SkipReason::IgnoredFile)));
    assert!(matches!(check("image.png", &[137, 80, 78, 71]), Some(SkipReason::IgnoredExtension)));
    assert!(matches!(check("binary.rs", &[0, 1, 2]), Some(SkipReason::BinaryFile)));
    assert!(matches!(check("scratch.tmp", b"tmp"), Some(SkipReason::UnsupportedExtension)));
    assert!(matches!(check(".env", b"SECRET=1"), Some(SkipReason::HiddenFile)));
    assert!(check("Makefile", b"all:\n").is_none());
    assert!(check("LICENSE", b"MIT\n").is_none());
    assert!(check("Main.RS", b"fn main() {}\n").is_none());
    assert!(verdict(&config, ".env", b"SECRET=1", false).is_none());

    let mut small = ProjectConfig::default();
    small.max_file_size = 4;
    assert!(matches!(verdict(&small, "big.rs", b"12345", true), Some(SkipReason::OverMaxFileSize)));
    assert!(verdict(&small, "ok.rs", b"1234", true).is_none());
}

#[test]
fn skip_reason_labels() {
    assert_eq!(SkipReason::IgnoredFile.label(), "ignored file");
    assert_eq!(SkipReason::HiddenFile.label(), "hidden file");
    assert_eq!(SkipReason::IgnoredExtension.label(), "ignored extension");
    assert_eq!(SkipReason::UnsupportedExtension.label(), "unsupported extension");
    assert_eq!(SkipReason::OverMaxFileSize.label(), "over max file size");
    assert_eq!(SkipReason::BinaryFile.label(), "binary file");
    assert_eq!(SkipReason::MetadataError.label(), "metadata error");
    assert_eq!(SkipReason::ReadError.label(), "read error");
    assert_eq!(SkipReason::WalkError.label(), "walk error");
}

#[test]
fn file_extensions_follow_path_rules() {
    assert_eq!(file_extension("main.rs"), Some("rs".to_string()));
    assert_eq!(file_extension("archive.tar.gz"), Some("gz".to_string()));
    assert_eq!(file_extension(".env"), None);
    assert_eq!(file_extension("Makefile"), None);
    assert_eq!(file_extension("trailing."), Some(String::new()));
    assert_eq!(file_extension(".."), None);
    assert_eq!(
        compared_name_and_extension("README.MD"),
        ("readme.md".to_string(), "md".to_string())
    );
    assert_eq!(analysis_extension_label("rs", "main.rs"), "rs");
    assert_eq!(analysis_extension_label("", "makefile"), "makefile");
    assert_eq!(analysis_extension_label("", ""), "no extension");
    assert_eq!(language_for_extension("ts"), "TypeScript");
    assert_eq!(language_for_extension("rs"), "Rust");
    assert_eq!(language_for_extension("md"), "Docs");
    assert_eq!(language_for_extension("zzz"), "Other");
}

#[test]
fn counts_and_token_estimate() {
    assert_eq!(text_counts(""), (0, 0));
    assert_eq!(text_counts("one\ntwo"), (2, 7));
    assert_eq!(text_counts("one\r\ntwo\n"), (2, 9));
    assert_eq!(text_counts("\n\n"), (2, 2));
    assert_eq!(text_counts("héllo"), (1, 5));
    assert_eq!(estimate_tokens(0), 0);
    assert_eq!(estimate_tokens(1), 1);
    assert_eq!(estimate_tokens(4), 1);
    assert_eq!(estimate_tokens(22), 6);
}

#[test]
fn report_lines() {
    assert_eq!(tree_line(1, "src", true), "├── src/");
    assert_eq!(tree_line(3, "lib.rs", false), "    └── lib.rs");
    assert_eq!(tree_line(0, "x", false), "└── x");
    assert_eq!(numbered_line(0, "fn main() {}"), "   1 │ fn main() {}");
    assert_eq!(numbered_line(12344, "x"), "12345 │ x");
    assert_eq!(path_for_part("myproject", 1), "myproject_project_code.txt");
    assert_eq!(path_for_part("sample", 2), "sample_project_code_2.txt");
}

#[test]
fn report_parts_rotate_only_between_files() {
    let mut counter = ReportCounter::new(Some(3));
    assert_eq!(counter.part, 1);
    for _ in 0..2 {
        counter.note_line();
    }
    assert!(!counter.needs_rotation());
    counter.note_line();
    counter.note_line();
    assert!(counter.needs_rotation());
    counter.start_next_part();
    assert_eq!((counter.part, counter.line_count), (2, 0));
    let mut unlimited = ReportCounter::new(None);
    for _ in 0..100 {
        unlimited.note_line();
    }
    assert!(!unlimited.needs_rotation());
    unlimited.reset();
    assert_eq!(unlimited.line_count, 0);

    let mut stats = ScanStats::new();
    stats.add_size(10);
    stats.add_size(5);
    stats.record_skip();
    assert_eq!((stats.total_size, stats.skipped), (15, 1));
}

#[test]
fn analysis_handles_empty_projects() {
    let builder = AnalysisBuilder::new(
        "empty".to_string(),
        "unknown".to_string(),
        "/tmp/empty".to_string(),
        false,
        true,
        1_048_576,
    );
    let analysis = builder.finish();

    assert_eq!(analysis.processed_files, 0);
    assert_eq!(analysis.skipped_files, 0);
    assert_eq!(analysis.total_lines, 0);
    assert_eq!(analysis.extension_breakdown.len(), 0);
}

#[test]
fn analysis_aggregates_extension_stats_and_skips() {
    let mut b = AnalysisBuilder::new(
        "demo".to_string(),
        "rust".to_string(),
        "/demo".to_string(),
        true,
        true,
        1_048_576,
    );
    b.record_directory();
    b.note_depth(1);
    for (path, ext, text) in [
        ("src/lib.rs", "rs", "one\ntwo\n"),
        ("src/app.ts", "ts", "const x = 1;\n"),
        ("README.md", "md", "# Title\nbody\n"),
        ("src/main.rs", "rs", "fn main() {}\n"),
    ] {
        b.record_file_seen();
        b.note_depth(path.matches('/').count() as u64 + 1);
        let (lines, chars) = text_counts(text);
        assert!(b.can_record_file(lines, chars, text.len() as u64));
        b.record_processed(path.to_string(), ext.to_string(), lines, chars, text.len() as u64);
    }
    b.record_skip(SkipReason::BinaryFile);
    b.record_skip(SkipReason::HiddenFile);
    b.record_skip(SkipReason::HiddenFile);
    let a = b.finish();

    assert_eq!(a.processed_files, 4);
    assert_eq!(a.total_lines, 6);
    assert_eq!(a.tree.directories, 1);
    assert_eq!(a.tree.files, 4);
    assert_eq!(a.tree.max_depth, 2);
    assert_eq!(a.skipped_files, 3);
    let exts: Vec<(&str, u64, u64)> = a
        .extension_breakdown
        .iter()
        .map(|e| (e.extension.as_str(), e.files, e.lines))
        .collect();
    assert_eq!(exts, vec![("rs", 2, 3), ("md", 1, 2), ("ts", 1, 1)]);
    assert_eq!(a.extension_breakdown[2].language, "TypeScript");
    let reasons: Vec<(&str, u64)> =
        a.skipped_reasons.iter().map(|r| (r.reason.as_str(), r.files)).collect();
    assert_eq!(reasons, vec![("hidden file", 2), ("binary file", 1)]);
    assert_eq!(a.largest_by_lines[0].lines, 2);
    assert_eq!(a.largest_by_size[0].path, "src/app.ts");
    assert_eq!(a.estimated_tokens, (a.total_chars + 3) / 4);
}

#[test]
fn file_steps_ask_for_size_then_binary_test() {
    let config = ProjectConfig::default();
    assert!(matches!(next_file_step(&config, &ScanKind::Loc, "a.rs", "rs", None, None), FileStep::NeedSize));
    assert!(matches!(
        next_file_step(&config, &ScanKind::Loc, "a.rs", "rs", Some(Some(10)), None),
        FileStep::NeedBinaryCheck
    ));
    assert!(matches!(
        next_file_step(&config, &ScanKind::Loc, "a.rs", "rs", Some(Some(10)), Some(false)),
        FileStep::Accept
    ));
    assert!(matches!(
        next_file_step(&config, &ScanKind::Analysis, "a.rs", "rs", Some(Some(10)), Some(true)),
        FileStep::Skip(SkipReason::BinaryFile)
    ));
    assert!(matches!(
        next_file_step(&config, &ScanKind::Analysis, "a.rs", "rs", Some(None), None),
        FileStep::Skip(SkipReason::MetadataError)
    ));
    assert!(matches!(
        next_file_step(&config, &ScanKind::Report, "a.rs", "rs", Some(None), None),
        FileStep::Drop
    ));
    // The written report neither tests for binary content nor passes over dotfiles.
    assert!(matches!(
        next_file_step(&config, &ScanKind::Report, "a.rs", "rs", Some(Some(10)), None),
        FileStep::Accept
    ));
    assert!(matches!(
        next_file_step(&config, &ScanKind::Report, ".env", "", Some(Some(3)), None),
        FileStep::Accept
    ));
    assert!(matches!(
        next_file_step(&config, &ScanKind::Loc, ".env", "", None, None),
        FileStep::Skip(SkipReason::HiddenFile)
    ));
    assert!(matches!(
        next_file_step(&config, &ScanKind::Loc, "big.rs", "rs", Some(Some(2_000_000)), None),
        FileStep::Skip(SkipReason::OverMaxFileSize)
    ));
    assert!(matches!(entry_kind(&config, "node_modules", true), EntryKind::Ignored));
    assert!(matches!(entry_kind(&config, "target", false), EntryKind::Ignored));
    assert!(matches!(entry_kind(&config, "src", true), EntryKind::Directory));
    assert!(matches!(entry_kind(&config, "main.rs", false), EntryKind::File));
}

#[test]
fn whitelisted_dotfiles_are_counted() {
    let mut config = ProjectConfig::default();
    config.code_extensions.push("gitignore".to_string());
    assert!(matches!(
        next_file_step(&config, &ScanKind::Loc, ".gitignore", "", None, None),
        FileStep::NeedSize
    ));
}

#[test]
fn project_kind_from_marker_files() {
    let names = |items: &[&str]| items.iter().map(|s| s.to_string()).collect::<Vec<_>>();
    assert_eq!(detect_project_type(&names(&["src", "Cargo.toml"])), "Rust");
    assert_eq!(detect_project_type(&names(&["package.json", "Cargo.toml"])), "Rust");
    assert_eq!(detect_project_type(&names(&["index.js", "package.json"])), "Node.js");
    assert_eq!(detect_project_type(&names(&["setup.py"])), "Python");
    assert_eq!(detect_project_type(&names(&["main.rs"])), "Unknown");
    assert!(is_single_project_root(&names(&["go.mod"])));
    assert!(is_single_project_root(&names(&[".git", "notes.txt"])));
    assert!(!is_single_project_root(&names(&["myproject"])));
}

#[test]
fn report_parts_start_only_at_file_blocks() {
    let mut counter = ReportCounter::new(Some(2));
    assert!(!counter.step(ReportEvent::FileStart));
    for _ in 0..5 {
        assert!(!counter.step(ReportEvent::Line));
    }
    assert_eq!((counter.part, counter.line_count), (1, 5));
    assert!(counter.step(ReportEvent::FileStart));
    assert_eq!((counter.part, counter.line_count), (2, 0));
    assert!(!counter.step(ReportEvent::FileStart));
    assert_eq!(counter.part, 2);
}
