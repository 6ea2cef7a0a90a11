use se_parts::{scan_document, ScanError, XmlEvent};

#[test]
fn scans_structural_events_in_document_order() {
    let doc = "<root a=\"1\" b=\"two\"><item/>text &amp; more</root>";
    let events = scan_document(doc).unwrap();
    assert_eq!(events.len(), 4);
    match &events[0] {
        XmlEvent::Open { name, attrs } => {
            assert_eq!(name, &"root".to_string());
            assert_eq!(attrs, &vec!["1".to_string(), "two".to_string()]);
        },
        other => panic!("expected an opening tag, got {:?}", other),
    }
    match &events[1] {
        XmlEvent::SelfClose { name, attrs } => {
            assert_eq!(name, &"item".to_string());
            assert!(attrs.is_empty());
        },
        other => panic!("expected a self-closing tag, got {:?}", other),
    }
    match &events[2] {
        XmlEvent::Text { content } => assert_eq!(content, &"text & more".to_string()),
        other => panic!("expected text content, got {:?}", other),
    }
    match &events[3] {
        XmlEvent::Close { name } => assert_eq!(name, &"root".to_string()),
        other => panic!("expected a closing tag, got {:?}", other),
    }
}

#[test]
fn whitespace_around_text_is_insignificant() {
    let doc = "<a>\n   padded   \n</a>";
    let events = scan_document(doc).unwrap();
    assert_eq!(events.len(), 3);
    match &events[1] {
        XmlEvent::Text { content } => assert_eq!(content, &"padded".to_string()),
        other => panic!("expected text content, got {:?}", other),
    }
}

#[test]
fn unbalanced_markup_is_malformed() {
    match scan_document("<a><b>text</a>") {
        Err(ScanError::MalformedXml { .. }) => {},
        other => panic!("expected a malformed-XML error, got {:?}", other),
    }
}
