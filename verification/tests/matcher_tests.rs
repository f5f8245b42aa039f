use web_watcher_alert::matcher::find_keywords;

#[test]
fn single_case_insensitive_match_with_full_context() {
    let matches = find_keywords("The Quick Fox", &["quick".to_string()]);
    assert_eq!(matches.len(), 1);
    assert_eq!(matches[0].keyword, "quick");
    assert_eq!(matches[0].context, "The Quick Fox");
}

#[test]
fn non_overlapping_matches_counted_once() {
    let matches = find_keywords("ababab", &["ab".to_string()]);
    assert_eq!(matches.len(), 3);
    for m in &matches {
        assert_eq!(m.keyword, "ab");
        assert_eq!(m.context, "ababab");
    }
    let matches = find_keywords("aaaa", &["aa".to_string()]);
    assert_eq!(matches.len(), 2);
}

#[test]
fn keywords_searched_in_given_order_with_duplicates() {
    let keys = vec!["b".to_string(), "a".to_string(), "b".to_string()];
    let matches = find_keywords("ab", &keys);
    assert_eq!(matches.len(), 3);
    assert_eq!(matches[0].keyword, "b");
    assert_eq!(matches[1].keyword, "a");
    assert_eq!(matches[2].keyword, "b");
}

#[test]
fn no_keywords_or_no_occurrences_yield_no_matches() {
    assert!(find_keywords("anything", &[]).is_empty());
    assert!(find_keywords("anything", &["zzz".to_string()]).is_empty());
    assert!(find_keywords("", &["a".to_string()]).is_empty());
    assert!(find_keywords("anything", &[String::new()]).is_empty());
}

#[test]
fn interior_context_is_truncated_and_marked_on_both_ends() {
    let mut content = String::new();
    for _ in 0..300 {
        content.push('x');
    }
    content.push_str("needle");
    for _ in 0..300 {
        content.push('y');
    }
    let matches = find_keywords(&content, &["needle".to_string()]);
    assert_eq!(matches.len(), 1);
    let ctx = &matches[0].context;
    // the cleaned window is 206 characters, so it is cut to 197 and framed
    assert_eq!(ctx.len(), 203);
    assert!(ctx.starts_with("..."));
    assert!(ctx.ends_with("..."));
}

#[test]
fn context_from_content_start_has_no_leading_marker() {
    let mut content = String::from("needle");
    for _ in 0..300 {
        content.push('z');
    }
    let matches = find_keywords(&content, &["needle".to_string()]);
    assert_eq!(matches.len(), 1);
    let ctx = &matches[0].context;
    assert!(ctx.starts_with("needle"));
    assert!(ctx.ends_with("..."));
    assert!(ctx.len() <= 200);
}

#[test]
fn context_windows_are_cleaned_of_line_breaks() {
    let content = "first line\n  second needle line  \nthird";
    let matches = find_keywords(content, &["needle".to_string()]);
    assert_eq!(matches.len(), 1);
    assert_eq!(matches[0].context, "first line second needle line third");
}
