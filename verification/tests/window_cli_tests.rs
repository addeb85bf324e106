use code_scanner::cli::{help_heading, is_default_input_dir, ScanOptions};
use code_scanner::window::fit_window;

#[test]
fn window_fits_the_work_area() {
    assert_eq!(fit_window(0, 0, 1920, 1080), (24, 24, 1872, 1032));
    assert_eq!(fit_window(100, 50, 800, 600), (100, 50, 900, 620));
    assert_eq!(fit_window(0, 0, 940, 660), (20, 20, 900, 620));
    assert_eq!(fit_window(-1920, 0, 1920, 1080), (-1896, 24, 1872, 1032));
}

#[test]
fn default_input_dir_is_recognized() {
    let parts = |items: &[&str]| items.iter().map(|s| s.to_string()).collect::<Vec<_>>();
    assert!(is_default_input_dir(&parts(&[".", "input"])));
    assert!(is_default_input_dir(&parts(&["input"])));
    assert!(!is_default_input_dir(&parts(&["other"])));
    assert!(!is_default_input_dir(&parts(&[".", "input", "x"])));
    assert!(!is_default_input_dir(&parts(&[])));
}

#[test]
fn scan_options_become_arguments() {
    let options = ScanOptions {
        no_gitignore: true,
        verbose: false,
        ignore: vec!["json".to_string()],
        max_output_lines: Some(20),
    };
    let args = options.into_args("in".to_string(), "out".to_string(), None);
    assert_eq!(args.input_dir, "in");
    assert_eq!(args.output_dir, "out");
    assert!(args.loc.is_none());
    assert!(args.no_gitignore);
    assert!(!args.verbose);
    assert_eq!(args.ignore, vec!["json".to_string()]);
    assert_eq!(args.max_output_lines, Some(20));
    assert!(args.lang.is_none());
}

#[test]
fn help_headings_drop_trailing_colons() {
    assert_eq!(help_heading("Options:"), "Options");
    assert_eq!(help_heading("  Opções :  "), "Opções :");
    assert_eq!(help_heading("オプション："), "オプション");
    assert_eq!(help_heading("Options : "), "Options :");
    assert_eq!(help_heading("Options ::"), "Options");
    assert_eq!(help_heading(""), "");
}
