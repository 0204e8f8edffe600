use fldemos::styling::{apply_highlights, json_styles, translate_style, HighlightEvent};

#[test]
fn style_letters() {
    assert_eq!(translate_style(0), 'A');
    assert_eq!(translate_style(3), 'D');
    assert_eq!(translate_style(25), 'Z');
}

#[test]
fn json_is_coloured_by_token() {
    assert_eq!(json_styles(r#"{"a": 1, "b": true}"#), "ABBBAADAABBBAACCCCA");
    assert_eq!(json_styles("null"), "CCCC");
    assert_eq!(json_styles(""), "");
}

#[test]
fn highlight_events_paint_ranges() {
    let events = vec![
        HighlightEvent::Start(2),
        HighlightEvent::Source { start: 0, end: 3 },
        HighlightEvent::End,
        HighlightEvent::Source { start: 3, end: 4 },
        HighlightEvent::Start(1),
        HighlightEvent::Source { start: 5, end: 6 },
    ];
    assert_eq!(apply_highlights(7, &events), "CCCAABA");
    assert_eq!(apply_highlights(3, &vec![]), "AAA");
}
