use fldemos::editor::{
    cycle_match, editor_row_id, find_step, highlight_language, open_index, pattern_is_valid,
    picture_extension, plain_matches, replace_all, replace_step, search_ranges, strip_unc_path,
    tab_label, FindOutcome, Language,
};

#[test]
fn unc_prefix_is_stripped() {
    assert_eq!(strip_unc_path("\\\\?\\C:\\work\\file.rs"), "C:\\work\\file.rs");
    assert_eq!(strip_unc_path("/home/me/file.rs"), "/home/me/file.rs");
    assert_eq!(strip_unc_path("\\\\?"), "\\\\?");
}

#[test]
fn plain_matches_do_not_overlap() {
    assert_eq!(plain_matches("aaaa", "aa"), vec![(0, 2), (2, 4)]);
    assert_eq!(plain_matches("abcabc", "bc"), vec![(1, 3), (4, 6)]);
    assert_eq!(plain_matches("abc", ""), vec![]);
    assert_eq!(plain_matches("héllo hé", "hé"), vec![(0, 3), (7, 10)]);
}

#[test]
fn cycling_through_matches() {
    let v = vec![(0, 1), (5, 6)];
    assert_eq!(cycle_match(&v, 0), Some(((0, 1), 1)));
    assert_eq!(cycle_match(&v, 1), Some(((5, 6), 0)));
    assert_eq!(cycle_match(&vec![], 0), None);
}

#[test]
fn find_steps() {
    let text = "one two one";
    assert_eq!(find_step(text, "one", false, 0), FindOutcome::Select { start: 0, end: 3, next: 1 });
    assert_eq!(find_step(text, "one", false, 1), FindOutcome::Select { start: 8, end: 11, next: 0 });
    assert_eq!(find_step(text, "one", false, 2), FindOutcome::Stale);
    assert_eq!(find_step(text, "three", false, 0), FindOutcome::Nothing);
    assert_eq!(find_step(text, "", false, 0), FindOutcome::Nothing);
    assert_eq!(find_step(text, "t[a-z]+", true, 0), FindOutcome::Select { start: 4, end: 7, next: 0 });
    assert_eq!(find_step(text, "(", true, 0), FindOutcome::InvalidPattern);
}

#[test]
fn regex_validity() {
    assert!(pattern_is_valid("a+b"));
    assert!(!pattern_is_valid("foo(bar"));
    assert_eq!(search_ranges("a1b22", "[0-9]+", true), Some(vec![(1, 2), (3, 5)]));
    assert_eq!(search_ranges("x", "[", true), None);
    assert_eq!(search_ranges("xax", "a", false), Some(vec![(1, 2)]));
}

#[test]
fn replacing() {
    assert_eq!(replace_all("a-b-c", "-", "+"), "a+b+c");
    assert_eq!(replace_all("abc", "", "-"), "-a-b-c-");
    assert_eq!(replace_all("aaa", "aa", "b"), "ba");
    assert_eq!(replace_step("a-b-c", "-", "+", false), Some("a+b+c".to_string()));
    assert_eq!(replace_step("a1b2", "[0-9]", "#", true), Some("a#b2".to_string()));
    assert_eq!(
        replace_step("Springsteen, Bruce", r"(?<last>[^,\s]+),\s+(?<first>\S+)", "$first $last", true),
        Some("Bruce Springsteen".to_string())
    );
    assert_eq!(replace_step("x", "(", "y", true), None);
}

#[test]
fn tabs_and_files() {
    assert_eq!(tab_label("main.rs", false), "\tmain.rs");
    assert_eq!(tab_label("main.rs", true), "\tmain.rs *");
    assert_eq!(editor_row_id(0), "edrow0");
    assert_eq!(editor_row_id(42), "edrow42");
    let paths = vec![Some("/a".to_string()), None, Some("/b".to_string())];
    assert_eq!(open_index(&paths, &Some("/b".to_string())), Some(2));
    assert_eq!(open_index(&paths, &None), Some(1));
    assert_eq!(open_index(&paths, &Some("/c".to_string())), None);
    assert!(picture_extension("png"));
    assert!(!picture_extension("PNG"));
    assert!(!picture_extension("rs"));
    assert_eq!(highlight_language("rs"), Some(Language::Rust));
    assert_eq!(highlight_language("toml"), Some(Language::Toml));
    assert_eq!(highlight_language("md"), Some(Language::Markdown));
    assert_eq!(highlight_language("txt"), None);
}

#[test]
fn replacing_what_does_not_occur_changes_nothing() {
    assert_eq!(replace_all("abcabc", "x", "y"), "abcabc");
    assert_eq!(replace_all("", "x", "y"), "");
}
