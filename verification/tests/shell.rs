use fldemos::shell::{count_words, language_list, single_instance, split_words, translate_args, trim};

#[test]
fn words_split_on_unicode_white_space() {
    assert_eq!(split_words("  a bb\tccc\n\u{3000}d "), vec!["a", "bb", "ccc", "d"]);
    assert_eq!(count_words(""), 0);
    assert_eq!(count_words(" \n "), 0);
    assert_eq!(count_words("hello"), 1);
}

#[test]
fn trimming() {
    assert_eq!(trim("  hi there \n"), "hi there");
    assert_eq!(trim("\u{a0}x\u{2029}"), "x");
    assert_eq!(trim("   "), "");
}

#[test]
fn languages_are_joined_for_a_menu() {
    assert_eq!(language_list("English\nFrench  German\n"), "English|French|German");
    assert_eq!(language_list(""), "");
}

#[test]
fn single_process_listing() {
    assert!(single_instance("1234\n"));
    assert!(!single_instance("1234\n5678\n"));
    assert!(!single_instance(""));
}

#[test]
fn translator_arguments() {
    let one = translate_args(false, "en", "fr", "  hello\n");
    assert_eq!(one.len(), 25);
    assert_eq!(one[19], "en");
    assert_eq!(one[21], "fr");
    assert_eq!(one[22], "");
    assert_eq!(one[23], "");
    assert_eq!(one[24], "hello");
    let many = translate_args(true, "en", "de", "good\n\n\nmorning ");
    assert_eq!(many[22], "-brief");
    assert_eq!(many[23], "-speak");
    assert_eq!(many[24], "good\n\nmorning");
}
