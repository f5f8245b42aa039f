use web_watcher_alert::diff::{get_diff, has_changed, normalize_whitespace};

#[test]
fn unchanged_for_identical_content() {
    assert!(!has_changed("some page body", "some page body"));
    assert!(!has_changed("", ""));
    assert!(!has_changed("a\n\nb", "a\n\nb"));
}

#[test]
fn unchanged_for_whitespace_only_edits() {
    assert!(!has_changed("a\n\nb", "a\nb"));
    assert!(!has_changed("a\n\n b \n", "a\nb"));
    assert!(!has_changed("  hello  ", "hello"));
    assert!(!has_changed("one\r\ntwo", "one\ntwo"));
}

#[test]
fn changed_for_real_content_delta() {
    assert!(has_changed("a", "b"));
    assert!(has_changed("hello world", "hello there"));
    assert!(has_changed("a", ""));
}

#[test]
fn normalize_trims_and_drops_blank_lines() {
    assert_eq!(normalize_whitespace("  a \n\n b "), "a\nb");
    assert_eq!(normalize_whitespace(""), "");
    assert_eq!(normalize_whitespace("\n\n\n"), "");
    assert_eq!(normalize_whitespace("one\ntwo"), "one\ntwo");
}

#[test]
fn diff_summary_counts_and_shows_changes() {
    let summary = get_diff("a\nb\n", "a\nc\n");
    assert_eq!(summary, "1 lines added, 1 lines removed\n- b\n+ c");
}

#[test]
fn diff_summary_without_line_changes() {
    let summary = get_diff("a\nb", "a\nb");
    assert_eq!(summary, "Content changed (whitespace only)");
}

#[test]
fn diff_summary_caps_shown_changes_at_three() {
    let old_text = "a\nb\nc\nd\ne\n";
    let new_text = "v\nw\nx\ny\nz\n";
    let summary = get_diff(old_text, new_text);
    assert!(summary.starts_with("5 lines added, 5 lines removed\n"));
    assert!(summary.ends_with("\n... (showing first 3 changes)"));
    assert!(summary.contains("- a"));
    assert!(summary.contains("- c"));
    assert!(!summary.contains("- d"));
    assert!(summary.contains("+ v"));
    assert!(!summary.contains("+ y"));
}
