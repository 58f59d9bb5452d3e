use findme::search::run_search;
use findme::search::evaluate_entry;
use findme::search::CandidateEntry;
use findme::search::SearchRequest;
use findme::report::summary_line;

fn entry(path: &str, is_file: bool, depth: usize, name: &str, extension: Option<&str>) -> CandidateEntry {
    CandidateEntry {
        path: path.to_string(),
        is_file,
        depth,
        name: name.to_string(),
        extension: extension.map(|e| e.to_string()),
    }
}

#[test]
fn scenario_depth_limited_search() {
    let entries = vec![
        entry(".", false, 0, ".", None),
        entry("./notes.txt", true, 0, "notes.txt", Some("txt")),
        entry("./deep", false, 1, "deep", None),
        entry("./deep/deep2", false, 2, "deep2", None),
        entry("./deep/deep2/notes2.txt", true, 2, "notes2.txt", Some("txt")),
    ];
    let req = SearchRequest { pattern: "note".to_string(), max_depth: 1, extensions: None };
    let (results, summary) = run_search(&entries, &req);
    assert_eq!(summary.count, 1);
    assert_eq!(results.len(), 1);
    assert_eq!(results[0].path, "./notes.txt");
}

#[test]
fn scenario_extension_filtered_search() {
    let entries = vec![
        entry("Report.TXT", true, 0, "Report.TXT", Some("TXT")),
        entry("report.csv", true, 0, "report.csv", Some("csv")),
    ];
    let req = SearchRequest {
        pattern: "report".to_string(),
        max_depth: 2,
        extensions: Some(vec!["txt".to_string()]),
    };
    let (results, summary) = run_search(&entries, &req);
    assert_eq!(summary.count, 1);
    assert_eq!(results.len(), 1);
    assert_eq!(results[0].path, "Report.TXT");
}

#[test]
fn scenario_nothing_found() {
    let entries = vec![
        entry("notes.txt", true, 0, "notes.txt", Some("txt")),
        entry("report.csv", true, 0, "report.csv", Some("csv")),
    ];
    let req = SearchRequest { pattern: "zzz-nonexistent".to_string(), max_depth: 2, extensions: None };
    let (results, summary) = run_search(&entries, &req);
    assert_eq!(summary.count, 0);
    assert!(results.is_empty());
    assert_eq!(summary_line(summary.count), "No result found");
}

#[test]
fn entries_beyond_depth_are_never_reported() {
    let deep = entry("deep.txt", true, 3, "deep.txt", Some("txt"));
    let req = SearchRequest {
        pattern: "deep".to_string(),
        max_depth: 2,
        extensions: Some(vec!["txt".to_string()]),
    };
    assert!(evaluate_entry(&deep, &req).is_none());
    let at_bound = entry("deep.txt", true, 2, "deep.txt", Some("txt"));
    assert!(evaluate_entry(&at_bound, &req).is_some());
}

#[test]
fn directories_are_never_reported() {
    let dir = entry("notes", false, 0, "notes", None);
    let req = SearchRequest { pattern: "note".to_string(), max_depth: 2, extensions: None };
    assert!(evaluate_entry(&dir, &req).is_none());
}

#[test]
fn missing_extension_fails_nonempty_filter_only() {
    let plain = entry("README", true, 0, "README", None);
    let filtered = SearchRequest {
        pattern: "read".to_string(),
        max_depth: 2,
        extensions: Some(vec!["txt".to_string()]),
    };
    let unfiltered = SearchRequest { pattern: "read".to_string(), max_depth: 2, extensions: None };
    let empty_filter = SearchRequest {
        pattern: "read".to_string(),
        max_depth: 2,
        extensions: Some(Vec::new()),
    };
    assert!(evaluate_entry(&plain, &filtered).is_none());
    assert!(evaluate_entry(&plain, &unfiltered).is_some());
    assert!(evaluate_entry(&plain, &empty_filter).is_some());
}

#[test]
fn search_twice_gives_the_same_matches() {
    let entries = vec![
        entry("a/notes.txt", true, 1, "notes.txt", Some("txt")),
        entry("b/Note.md", true, 1, "Note.md", Some("md")),
        entry("c/other.rs", true, 1, "other.rs", Some("rs")),
    ];
    let req = SearchRequest { pattern: "note".to_string(), max_depth: 2, extensions: None };
    let (first, count_first) = run_search(&entries, &req);
    let (second, count_second) = run_search(&entries, &req);
    assert_eq!(count_first.count, count_second.count);
    let first_paths: Vec<String> = first.iter().map(|m| m.path.clone()).collect();
    let second_paths: Vec<String> = second.iter().map(|m| m.path.clone()).collect();
    assert_eq!(first_paths, second_paths);
    assert_eq!(first_paths, vec!["a/notes.txt", "b/Note.md"]);
}

#[test]
fn results_carry_scores() {
    let entries = vec![entry("notes.txt", true, 0, "notes.txt", Some("txt"))];
    let req = SearchRequest { pattern: "note".to_string(), max_depth: 2, extensions: None };
    let (results, _) = run_search(&entries, &req);
    assert_eq!(results.len(), 1);
    assert!(results[0].score.is_some());
}
