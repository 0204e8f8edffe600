use fldemos::editor::Language;
use fldemos::highlight::{highlight_styles, language_config, style_names};

#[test]
fn names_follow_the_style_tables() {
    assert_eq!(style_names(Language::Toml)[1], "property");
    assert_eq!(style_names(Language::Markdown).len(), 7);
    assert!(style_names(Language::Rust).is_empty());
}

#[test]
fn rust_has_no_configuration() {
    assert!(language_config(Language::Rust).is_none());
}

#[test]
fn toml_is_coloured_byte_by_byte() {
    let c = language_config(Language::Toml).expect("configuration");
    let text = "name = \"x\" # note\n";
    let styles = highlight_styles(&c, text).expect("styles");
    assert_eq!(styles.len(), text.len());
    assert!(styles.chars().all(|ch| ('A'..='H').contains(&ch)));
    // The key is a property and the comment a comment.
    assert_eq!(&styles[0..4], "BBBB");
    assert_eq!(&styles[11..17], "CCCCCC");
}

#[test]
fn markdown_titles_are_coloured() {
    let c = language_config(Language::Markdown).expect("configuration");
    let text = "# Title\n\nplain\n";
    let styles = highlight_styles(&c, text).expect("styles");
    assert_eq!(styles.len(), text.len());
    assert!(styles.contains('B') || styles.contains('D'));
}

#[test]
fn bundled_grammars_build_their_configurations() {
    assert!(language_config(Language::Toml).is_some());
    assert!(language_config(Language::Markdown).is_some());
}
