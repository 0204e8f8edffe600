use fldemos::translator::{
    can_translate, drop_step, dropped_path, request_url, splitter_size, stacked, switch_languages, title, DropEvent,
    DropState, Pair,
};

#[test]
fn dropped_paths_lose_the_scheme() {
    assert_eq!(dropped_path("  file:///home/me/a.txt\r\n"), "/home/me/a.txt");
    assert_eq!(dropped_path("/tmp/b"), "/tmp/b");
}

#[test]
fn translation_needs_two_languages_and_text() {
    assert!(can_translate("en", "fr", "hello"));
    assert!(!can_translate("en", "en", "hello"));
    assert!(!can_translate("en", "fr", ""));
}

#[test]
fn switching_languages() {
    assert_eq!(switch_languages("en".into(), "fr".into()), ("fr".to_string(), "en".to_string()));
    assert_eq!(switch_languages("en".into(), "en".into()), ("en".to_string(), "en".to_string()));
    let mut p = Pair { from: 3, to: 7 };
    p.switch();
    assert_eq!(p, Pair { from: 7, to: 3 });
    p.switch();
    assert_eq!(p, Pair { from: 3, to: 7 });
}

#[test]
fn titles_and_layout() {
    let expected = ["Translate", " from en to fr - FlDialect"].concat();
    assert_eq!(title("en", "fr", "FlDialect"), expected);
    assert!(stacked(300, 600));
    assert!(!stacked(600, 300));
    assert_eq!(request_url("https://x/api/v1/", "en", "fr", "hi"), "https://x/api/v1//en/fr/hi");
}

#[test]
fn a_drop_is_read_only_after_entry_and_release() {
    let idle = DropState { entered: false, released: false };
    let paste = drop_step(idle, DropEvent::Paste);
    assert!(!paste.load && !paste.handled);
    let s = drop_step(idle, DropEvent::Enter).state;
    let s = drop_step(s, DropEvent::Drag).state;
    let s = drop_step(s, DropEvent::Release).state;
    let done = drop_step(s, DropEvent::Paste);
    assert!(done.load && done.handled);
    assert_eq!(done.state, idle);
    let left = drop_step(DropState { entered: true, released: false }, DropEvent::Leave);
    assert_eq!(left.state, idle);
    assert!(left.handled && !left.load);
    assert!(!drop_step(idle, DropEvent::Other).handled);
}

#[test]
fn splitter_follows_the_pointer_within_the_layout() {
    assert_eq!(splitter_size(10, 200, 10, 50), Some(40));
    assert_eq!(splitter_size(10, 200, 10, 10), Some(0));
    assert_eq!(splitter_size(10, 200, 10, 200), Some(190));
    assert_eq!(splitter_size(10, 200, 10, 201), None);
    assert_eq!(splitter_size(10, 200, 10, 9), None);
}

#[test]
fn web_translation_needs_two_languages_and_text() {
    assert!(Pair { from: 1, to: 2 }.can_translate("hi"));
    assert!(!Pair { from: 2, to: 2 }.can_translate("hi"));
    assert!(!Pair { from: 1, to: 2 }.can_translate(""));
}
