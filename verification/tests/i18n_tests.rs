use code_scanner::i18n::{
    bundle_sources, timestamp_locale, size_unit_for,
    available_locales, catalog_map, catalog_source, clean_tag, format_number, init, init_from_cli,
    is_rtl_locale, localize_decimal, localize_int, localized_size, locale_decimal_separator,
    locale_thousands_separator, match_available, message_ids, peek_argv_lang, resolve_locale,
    CatalogMap, LangId,
};

fn catalogs(names: &[&str]) -> CatalogMap {
    let files: Vec<(String, Vec<u8>)> = names
        .iter()
        .map(|name| (format!("{name}.ftl"), format!("app-name = {name}\n").into_bytes()))
        .collect();
    catalog_map(&files)
}

fn argv(items: &[&str]) -> Vec<String> {
    items.iter().map(|s| s.to_string()).collect()
}

#[test]
fn rtl_locales_are_detected() {
    assert!(is_rtl_locale("ar-SA"));
    assert!(is_rtl_locale("he-IL"));
    assert!(is_rtl_locale("fa"));
    assert!(is_rtl_locale("ur-PK"));
    assert!(!is_rtl_locale("en-US"));
    assert!(!is_rtl_locale("pt-BR"));
}

#[test]
fn rtl_detection_ignores_case_and_accepts_underscores() {
    assert!(is_rtl_locale("AR_eg"));
    assert!(!is_rtl_locale("ara"));
    assert!(!is_rtl_locale(""));
}

#[test]
fn sizes_and_counts_follow_active_locale() {
    assert_eq!(localized_size("en-US", 0, "", 0), "0 B");
    let en = localized_size("en-US", 1500, "1.50", 1);
    assert!(en.contains("kB"), "en-US size should use kB: {en}");
    assert!(en.contains('.'), "en-US decimal size should use a dot: {en}");
    assert_eq!(format_number("en-US", 1234), "1,234");

    assert_eq!(format_number("pt-BR", 2), "2");
    assert_eq!(format_number("pt-BR", 1234), "1.234");
    let pt = localized_size("pt-BR", 1500, "1.50", 1);
    assert!(pt.contains(','), "pt-BR decimal size should use a comma: {pt}");
    // The timestamp itself reads the clock; the locale it is written in is chosen here.
    let stamp_locale = timestamp_locale("pt-BR").expect("pt-BR timestamps are localized");
    assert!(!stamp_locale.is_empty());
}

#[test]
fn localized_sizes_are_exact() {
    assert_eq!(localized_size("en-US", 1500, "1.50", 1), "1.5 kB");
    assert_eq!(localized_size("pt-BR", 1500, "1.50", 1), "1,5 kB");
    assert_eq!(localized_size("en-US", 2_000_000, "2.00", 2), "2 MB");
    assert_eq!(localized_size("de-DE", 999, "", 0), "999 B");
    assert_eq!(localized_size("en-US", 3_250_000_000, "3.25", 3), "3.25 GB");
}

#[test]
fn numbers_group_digits_by_locale() {
    assert_eq!(localize_int("en-US", 0), "0");
    assert_eq!(localize_int("en-US", 999), "999");
    assert_eq!(localize_int("en-US", 1000), "1,000");
    assert_eq!(localize_int("en-US", -1234567), "-1,234,567");
    assert_eq!(localize_int("fr-FR", 1234567), "1.234.567");
    assert_eq!(localize_int("en-US", i64::MIN), "-9,223,372,036,854,775,808");
    assert_eq!(locale_decimal_separator("ja-JP"), '.');
    assert_eq!(locale_thousands_separator("ja-JP"), ',');
    assert_eq!(locale_decimal_separator("es-ES"), ',');
    assert_eq!(locale_thousands_separator("es-ES"), '.');
    // A tag that does not parse falls back to English notation.
    assert_eq!(locale_decimal_separator("!!"), '.');
}

#[test]
fn decimals_drop_trailing_zeros_and_use_local_mark() {
    assert_eq!(localize_decimal("en-US", "1.50"), "1.5");
    assert_eq!(localize_decimal("en-US", "2.00"), "2");
    assert_eq!(localize_decimal("pt-BR", "12.34"), "12,34");
    assert_eq!(localize_decimal("pt-BR", "100"), "100");
}

#[test]
fn lang_flag_is_found_before_parsing() {
    assert_eq!(peek_argv_lang(&argv(&["scanner", "--lang", "pt-BR"])), Some("pt-BR".to_string()));
    assert_eq!(peek_argv_lang(&argv(&["scanner", "--lang=fr"])), Some("fr".to_string()));
    assert_eq!(peek_argv_lang(&argv(&["scanner", "--lang"])), None);
    assert_eq!(peek_argv_lang(&argv(&["scanner", "--lang", ""])), None);
    assert_eq!(peek_argv_lang(&argv(&["scanner", "--loc", "."])), None);
    assert_eq!(peek_argv_lang(&argv(&["--lang", "de"])), None);
    assert_eq!(peek_argv_lang(&argv(&[])), None);
    assert_eq!(
        peek_argv_lang(&argv(&["scanner", "--lang=es", "--lang", "it"])),
        Some("es".to_string())
    );
}

#[test]
fn tags_are_cleaned() {
    assert_eq!(clean_tag("  pt_BR "), Some("pt-BR".to_string()));
    assert_eq!(clean_tag("en-US"), Some("en-US".to_string()));
    assert_eq!(clean_tag("   "), None);
    assert_eq!(clean_tag(""), None);
}

#[test]
fn catalogs_are_keyed_by_locale() {
    let files: Vec<(String, Vec<u8>)> = vec![
        ("pt_BR.ftl".to_string(), b"app-name = Scanner\n".to_vec()),
        ("README.md".to_string(), b"not a catalog".to_vec()),
        ("bad.ftl".to_string(), vec![0xff, 0xfe]),
        ("en-US.ftl".to_string(), b"app-name = Code Scanner\n".to_vec()),
    ];
    let map = catalog_map(&files);
    assert_eq!(catalog_source(&map, "pt-BR"), Some("app-name = Scanner\n".to_string()));
    assert_eq!(catalog_source(&map, "en-US"), Some("app-name = Code Scanner\n".to_string()));
    assert_eq!(catalog_source(&map, "bad"), None);
    assert_eq!(catalog_source(&map, "README"), None);
    assert_eq!(available_locales(&map), vec!["en-US".to_string(), "pt-BR".to_string()]);
}

#[test]
fn fallback_locale_is_listed_first() {
    let map = catalogs(&["zh-CN", "ar-SA", "en-US", "de-DE"]);
    assert_eq!(
        available_locales(&map),
        vec!["en-US".to_string(), "ar-SA".to_string(), "de-DE".to_string(), "zh-CN".to_string()]
    );
    let without = catalogs(&["zh-CN", "ar-SA"]);
    assert_eq!(available_locales(&without), vec!["ar-SA".to_string(), "zh-CN".to_string()]);
    let mut inserted = CatalogMap::new();
    inserted.insert("fr".to_string(), "a = 1\n".to_string());
    inserted.insert("fr".to_string(), "a = 2\n".to_string());
    assert_eq!(catalog_source(&inserted, "fr"), Some("a = 2\n".to_string()));
    assert_eq!(available_locales(&inserted), vec!["fr".to_string()]);
}

#[test]
fn requested_locale_matches_exactly_then_by_language() {
    let available = vec![
        LangId { tag: "en-US".to_string(), language: "en".to_string() },
        LangId { tag: "pt-BR".to_string(), language: "pt".to_string() },
    ];
    let exact = match_available("pt-BR", &available).expect("exact match");
    assert_eq!(exact.tag, "pt-BR");
    let by_language = match_available("pt-PT", &available).expect("language match");
    assert_eq!(by_language.tag, "pt-BR");
    assert!(match_available("ja-JP", &available).is_none());
    assert!(match_available("not a tag!", &available).is_none());
}

#[test]
fn locale_resolution_order() {
    let map = catalogs(&["en-US", "pt-BR", "de-DE"]);
    assert_eq!(init(Some("pt_BR"), Some("de-DE"), Some("en-US"), &map), "pt-BR");
    assert_eq!(init(None, Some("de"), Some("pt-BR"), &map), "de-DE");
    assert_eq!(init(Some("ja"), None, Some("pt-PT"), &map), "pt-BR");
    assert_eq!(init(Some("ja"), Some("ko"), Some("xx"), &map), "en-US");
    assert_eq!(init(None, None, None, &map), "en-US");
    assert_eq!(resolve_locale(Some("de"), None, None, &map).language, "de");
    assert_eq!(
        init_from_cli(&argv(&["scanner", "--lang", "pt-BR", "--loc", "."]), None, None, &map),
        "pt-BR"
    );
    assert_eq!(init_from_cli(&argv(&["scanner"]), Some("de-DE"), None, &map), "de-DE");
}

#[test]
fn catalog_message_ids_are_listed_in_order() {
    let src = "# comment\napp-name = Code Scanner\n\napp-banner = Hello\n    continued\n.attr = x\n-term = y\ncli-loc-files-processed = Files processed: { $count }\napp-name = again\nbad id = z\n";
    assert_eq!(
        message_ids(src),
        vec![
            "app-banner".to_string(),
            "app-name".to_string(),
            "cli-loc-files-processed".to_string()
        ]
    );
    assert!(message_ids("").is_empty());
    assert_eq!(message_ids("ui-idle=Idle\r\nui-run-scan = Run\r\n"), vec![
        "ui-idle".to_string(),
        "ui-run-scan".to_string()
    ]);
}

#[test]
fn bundles_take_the_locale_catalog_then_english() {
    let files: Vec<(String, Vec<u8>)> = vec![
        ("en-US.ftl".to_string(), b"a = A\n".to_vec()),
        ("pt-BR.ftl".to_string(), b"a = B\n".to_vec()),
        ("fr.ftl".to_string(), b"  \n".to_vec()),
    ];
    let map = catalog_map(&files);
    assert_eq!(bundle_sources(&map, "pt-BR"), vec!["a = B\n".to_string(), "a = A\n".to_string()]);
    assert_eq!(bundle_sources(&map, "en-US"), vec!["a = A\n".to_string()]);
    assert_eq!(bundle_sources(&map, "fr"), vec!["a = A\n".to_string()]);
    assert_eq!(bundle_sources(&map, "ja"), vec!["a = A\n".to_string()]);
    let empty = catalog_map(&Vec::new());
    assert!(bundle_sources(&empty, "en-US").is_empty());
}

#[test]
fn timestamps_use_chrono_locale_names() {
    assert_eq!(timestamp_locale("pt-BR"), Some("pt_BR".to_string()));
    assert_eq!(timestamp_locale("en-US"), Some("en_US".to_string()));
    assert_eq!(timestamp_locale("POSIX"), Some("POSIX".to_string()));
    assert_eq!(timestamp_locale("fr"), None);
    assert_eq!(timestamp_locale("xx-YY"), None);
}

#[test]
fn size_units_follow_powers_of_a_thousand() {
    assert_eq!(size_unit_for(0), 0);
    assert_eq!(size_unit_for(999), 0);
    assert_eq!(size_unit_for(1000), 1);
    assert_eq!(size_unit_for(999_999), 1);
    assert_eq!(size_unit_for(1_000_000), 2);
    assert_eq!(size_unit_for(1_000_000_000), 3);
    assert_eq!(size_unit_for(999_999_999_999), 3);
    assert_eq!(size_unit_for(1_000_000_000_000), 4);
    assert_eq!(size_unit_for(u64::MAX), 4);
}
