use findme::ext_filter::accepts;
use findme::fuzzy::fuzzy_match;

#[test]
fn subsequence_match_found() {
    assert!(fuzzy_match("notes.txt", "note").is_some());
    assert!(fuzzy_match("notes.txt", "nt").is_some());
    assert!(fuzzy_match("notes.txt", "notes.txt").is_some());
}

#[test]
fn subsequence_match_case_insensitive() {
    assert!(fuzzy_match("Report.TXT", "report").is_some());
    assert!(fuzzy_match("notes.txt", "NOTE").is_some());
    assert!(fuzzy_match("MiXeD.rs", "mixed").is_some());
}

#[test]
fn subsequence_match_absent() {
    assert!(fuzzy_match("abc", "xyz").is_none());
    assert!(fuzzy_match("ab", "ba").is_none());
    assert!(fuzzy_match("", "a").is_none());
    assert!(fuzzy_match("notes.txt", "notesz").is_none());
    assert!(fuzzy_match("notes.txt", "xnote").is_none());
}

#[test]
fn empty_pattern_always_matches() {
    assert!(fuzzy_match("anything", "").is_some());
    assert!(fuzzy_match("", "").is_some());
    assert!(fuzzy_match("deep/deep2/notes2.txt", "").is_some());
}

#[test]
fn skim_score_reported_for_real_match() {
    let score = fuzzy_match("notes.txt", "note").unwrap();
    assert!(score > 0);
    let exact = fuzzy_match("note", "note").unwrap();
    assert!(exact > 0);
}

#[test]
fn filter_absent_accepts_everything() {
    assert!(accepts(None, None));
    assert!(accepts(Some("txt"), None));
    assert!(accepts(Some("TXT"), None));
}

#[test]
fn filter_empty_accepts_everything() {
    let empty: Vec<String> = Vec::new();
    assert!(accepts(None, Some(&empty)));
    assert!(accepts(Some("txt"), Some(&empty)));
}

#[test]
fn filter_rejects_missing_extension() {
    let allowed = vec!["txt".to_string()];
    assert!(!accepts(None, Some(&allowed)));
}

#[test]
fn filter_matches_case_insensitively() {
    let allowed = vec!["txt".to_string()];
    assert!(accepts(Some("TXT"), Some(&allowed)));
    assert!(accepts(Some("txt"), Some(&allowed)));
    assert!(!accepts(Some("csv"), Some(&allowed)));
}

#[test]
fn filter_needs_exact_equality() {
    let allowed = vec!["txt".to_string()];
    assert!(!accepts(Some("txt2"), Some(&allowed)));
    assert!(!accepts(Some("tx"), Some(&allowed)));
}
