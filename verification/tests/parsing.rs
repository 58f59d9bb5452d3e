use findme::aliases::PredefinedPaths;
use findme::config::parse_depth;
use findme::config::parse_extensions;
use findme::report::report_line;
use findme::report::summary_line;
use findme::report::usize_to_string;

#[test]
fn depth_parses_plain_numbers() {
    assert_eq!(parse_depth("0"), 0);
    assert_eq!(parse_depth("3"), 3);
    assert_eq!(parse_depth("42"), 42);
    assert_eq!(parse_depth("+7"), 7);
}

#[test]
fn depth_falls_back_to_default() {
    assert_eq!(parse_depth(""), 2);
    assert_eq!(parse_depth("abc"), 2);
    assert_eq!(parse_depth("12x"), 2);
    assert_eq!(parse_depth("-1"), 2);
    assert_eq!(parse_depth("+"), 2);
    assert_eq!(parse_depth("1.5"), 2);
    assert_eq!(parse_depth("999999999999999999999999999999"), 2);
}

#[test]
fn extensions_split_on_commas() {
    assert_eq!(parse_extensions("txt,rs"), vec!["txt", "rs"]);
    assert_eq!(parse_extensions("txt"), vec!["txt"]);
    assert_eq!(parse_extensions("a,,b"), vec!["a", "", "b"]);
}

#[test]
fn extensions_are_trimmed_and_lowered() {
    assert_eq!(parse_extensions(" TXT , Rs "), vec!["txt", "rs"]);
    assert_eq!(parse_extensions("\tCSV\n"), vec!["csv"]);
}

#[test]
fn extensions_of_empty_value() {
    assert_eq!(parse_extensions(""), vec![""]);
}

#[test]
fn alias_etc_is_fixed() {
    let table = PredefinedPaths::new();
    assert_eq!(table.resolve_path("_etc"), Some("/etc".to_string()));
}

#[test]
fn alias_lookup_is_exact_key_not_path_normalization() {
    let table = PredefinedPaths::new();
    assert_eq!(table.resolve_path("_etc/"), None);
    assert_eq!(table.resolve_path(" _etc"), None);
    assert_eq!(table.resolve_path("_ETC"), None);
    assert_eq!(table.resolve_path("/etc"), None);
    assert_eq!(table.resolve_path(""), None);
}

#[test]
fn table_assembly_falls_back_to_empty_paths() {
    let table = PredefinedPaths::from_lookups(None, None, None, None, None);
    assert_eq!(table.resolve_path("_home"), Some(".config".to_string()));
    assert_eq!(table.resolve_path("_etc"), Some("/etc".to_string()));
    assert_eq!(table.resolve_path("_desktop"), Some("".to_string()));
    assert_eq!(table.resolve_path("_documents"), Some("".to_string()));
    assert_eq!(table.resolve_path("_downloads"), Some("".to_string()));
    assert_eq!(table.resolve_path("_config"), Some("".to_string()));
}

#[test]
fn table_assembly_uses_looked_up_directories() {
    let table = PredefinedPaths::from_lookups(
        Some("/home/u".to_string()),
        Some("/home/u/Desktop".to_string()),
        Some("/home/u/Documents".to_string()),
        Some("/home/u/Downloads".to_string()),
        Some("/home/u/.config".to_string()),
    );
    assert_eq!(table.resolve_path("_home"), Some("/home/u/.config".to_string()));
    assert_eq!(table.resolve_path("_etc"), Some("/etc".to_string()));
    assert_eq!(table.resolve_path("_desktop"), Some("/home/u/Desktop".to_string()));
    assert_eq!(table.resolve_path("_documents"), Some("/home/u/Documents".to_string()));
    assert_eq!(table.resolve_path("_downloads"), Some("/home/u/Downloads".to_string()));
    assert_eq!(table.resolve_path("_config"), Some("/home/u/.config".to_string()));
}

#[test]
fn table_assembly_join_adds_no_double_separator() {
    let table = PredefinedPaths::from_lookups(Some("/home/u/".to_string()), None, None, None, None);
    assert_eq!(table.resolve_path("_home"), Some("/home/u/.config".to_string()));
}

#[test]
fn alias_home_points_into_config() {
    let table = PredefinedPaths::new();
    let home_config = table.resolve_path("_home").unwrap();
    assert!(home_config.ends_with(".config"));
}

#[test]
fn all_six_aliases_resolve() {
    let table = PredefinedPaths::new();
    for key in ["_home", "_etc", "_desktop", "_documents", "_downloads", "_config"] {
        assert!(table.resolve_path(key).is_some());
    }
}

#[test]
fn report_line_format() {
    assert_eq!(report_line("dir/notes.txt"), "Found file: dir/notes.txt");
}

#[test]
fn summary_line_format() {
    assert_eq!(summary_line(0), "No result found");
    assert_eq!(summary_line(1), "Total files found: 1");
    assert_eq!(summary_line(37), "Total files found: 37");
}

#[test]
fn decimal_formatting() {
    assert_eq!(usize_to_string(0), "0");
    assert_eq!(usize_to_string(10), "10");
    assert_eq!(usize_to_string(12345), "12345");
}
