use string_randomizer::tokenize;
use string_randomizer::write_events_chars;
use string_randomizer::Attr;
use string_randomizer::Event;
use string_randomizer::ErrorKind;

fn chars_of(s: &str) -> Vec<char> {
    s.chars().collect()
}

fn string_of(v: &[char]) -> String {
    v.iter().collect()
}

#[test]
fn tokenize_yields_events_in_document_order() {
    let v = chars_of("<a x='1'><!--c-->hi<![CDATA[d]]><?p q?></a>");
    let events = tokenize(&v).unwrap();
    assert_eq!(events.len(), 6);
    match &events[0] {
        Event::Start { name, attrs } => {
            assert_eq!(string_of(name), "a");
            assert_eq!(attrs.len(), 1);
            assert_eq!(string_of(&attrs[0].name), "x");
            assert_eq!(string_of(&attrs[0].value), "1");
            assert!(!attrs[0].double_quoted);
        },
        _ => panic!("expected a start tag"),
    }
    match &events[1] {
        Event::Comment { content } => assert_eq!(string_of(content), "c"),
        _ => panic!("expected a comment"),
    }
    match &events[2] {
        Event::Text { content } => assert_eq!(string_of(content), "hi"),
        _ => panic!("expected text"),
    }
    match &events[3] {
        Event::CData { content } => assert_eq!(string_of(content), "d"),
        _ => panic!("expected a CDATA section"),
    }
    match &events[4] {
        Event::Pi { target, rest } => {
            assert_eq!(string_of(target), "p");
            assert_eq!(string_of(rest), " q");
        },
        _ => panic!("expected a processing instruction"),
    }
    match &events[5] {
        Event::End { name } => assert_eq!(string_of(name), "a"),
        _ => panic!("expected an end tag"),
    }
}

#[test]
fn tokenize_drops_whitespace_only_text() {
    let v = chars_of("<a>\n   <b/>\t</a>");
    let events = tokenize(&v).unwrap();
    assert_eq!(events.len(), 3);
    assert!(matches!(&events[1], Event::Empty { .. }));
}

#[test]
fn tokenize_distinguishes_declaration_from_pi() {
    let v = chars_of("<?xml version='1.0'?><r></r>");
    let events = tokenize(&v).unwrap();
    match &events[0] {
        Event::Decl { rest } => assert_eq!(string_of(rest), " version='1.0'"),
        _ => panic!("expected the XML declaration"),
    }
}

#[test]
fn tokenize_reports_duplicate_attribute_offset() {
    let v = chars_of("<a x=\"1\" x=\"2\"/>");
    let err = tokenize(&v).unwrap_err();
    assert_eq!(err.kind, ErrorKind::DuplicateAttribute);
    assert_eq!(err.offset, 9);
}

#[test]
fn writer_indents_hand_built_events() {
    let events = vec![
        Event::Start { name: chars_of("a"), attrs: vec![] },
        Event::Empty {
            name: chars_of("b"),
            attrs: vec![Attr { name: chars_of("k"), value: chars_of("v"), double_quoted: true }],
        },
        Event::End { name: chars_of("a") },
    ];
    let out = write_events_chars(&events);
    assert_eq!(string_of(&out), "<a>\n  <b k=\"v\"/>\n</a>");
}

#[test]
fn writer_discards_whitespace_only_text_events() {
    let events = vec![
        Event::Start { name: chars_of("a"), attrs: vec![] },
        Event::Text { content: chars_of("  \n ") },
        Event::End { name: chars_of("a") },
    ];
    let out = write_events_chars(&events);
    assert_eq!(string_of(&out), "<a>\n</a>");
}
