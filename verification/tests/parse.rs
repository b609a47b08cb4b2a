use xml_to_serde::builder::{ParseError, XmlToken, build_tree};
use xml_to_serde::parse_xml_file;
use xml_to_serde::tokenize::tokenize;

#[test]
fn end_to_end_required_id() {
    let out = parse_xml_file("<root><item id=\"1\">a</item><item id=\"2\">b</item></root>")
        .unwrap();
    assert!(out.contains("pub struct Root {"));
    assert!(out.contains("item: root::ItemElement,"));
    assert!(out.contains("pub mod root{"));
    assert!(out.contains("pub struct ItemElement {"));
    assert!(out.contains("content_xml: String,"));
    // id is present on both siblings, so it stays required
    assert!(out.contains("id: u64,"));
    assert!(!out.contains("Option<u64>"));
}

#[test]
fn end_to_end_optional_id() {
    let out =
        parse_xml_file("<root><item id=\"1\">a</item><item>b</item></root>").unwrap();
    // id is absent on the second sibling, so the merged item makes it optional
    assert!(out.contains("id: Option<u64>,"));
}

#[test]
fn end_to_end_exact_text() {
    let out = parse_xml_file("<root><count>7</count></root>").unwrap();
    assert_eq!(
        out,
        "\n#[derive(Debug, Deserialize)]\npub struct Root {\n  count: u64,\n\n}\n"
    );
}

#[test]
fn nested_elements_render_depth_first() {
    let out = parse_xml_file(
        "<list><entry><name>x</name></entry><entry><name>y</name></entry></list>",
    )
    .unwrap();
    assert!(out.contains("pub struct List {"));
    assert!(out.contains("entry: Vec<Entry>,"));
    assert!(out.contains("pub struct Entry {"));
    assert!(out.contains("name: String,"));
}

#[test]
fn reserved_attribute_name_is_escaped_end_to_end() {
    let out = parse_xml_file("<root><a type=\"x\">1</a></root>").unwrap();
    assert!(out.contains("#[serde(rename = \"type\")]"));
    assert!(out.contains("type_xml: String,"));
}

#[test]
fn promotion_is_transitive_end_to_end() {
    // The first sibling lacks "k"; the two later ones carry it. The merged
    // leaf keeps "k" optional, so the emitted type can deserialize the very
    // document it was inferred from.
    let out = parse_xml_file("<r><i>x</i><i k=\"1\">x</i><i k=\"1\">x</i></r>").unwrap();
    assert!(out.contains("k: Option<u64>,"));
    assert!(!out.contains("k: u64,"));
}

#[test]
fn mismatched_close_is_reported() {
    let tokens = vec![
        XmlToken::Start("a".to_string(), vec![]),
        XmlToken::Start("b".to_string(), vec![]),
        XmlToken::End("a".to_string()),
    ];
    match build_tree(&tokens) {
        Err(ParseError::MismatchedClose { expected, found }) => {
            assert_eq!(expected, "b");
            assert_eq!(found, "a");
        },
        other => panic!("expected a mismatched-close error, got {:?}", other),
    }
}

#[test]
fn unmatched_close_is_reported() {
    let tokens = vec![XmlToken::End("a".to_string())];
    match build_tree(&tokens) {
        Err(ParseError::UnmatchedClose { found }) => assert_eq!(found, "a"),
        other => panic!("expected an unmatched-close error, got {:?}", other),
    }
}

#[test]
fn unclosed_element_is_reported() {
    let tokens = vec![
        XmlToken::Start("a".to_string(), vec![]),
        XmlToken::Start("b".to_string(), vec![]),
        XmlToken::End("b".to_string()),
    ];
    match build_tree(&tokens) {
        Err(ParseError::Unclosed { open }) => assert_eq!(open, vec!["a".to_string()]),
        other => panic!("expected an unclosed error, got {:?}", other),
    }
}

#[test]
fn unclosed_error_carries_the_whole_stack() {
    let tokens = vec![
        XmlToken::Start("a".to_string(), vec![]),
        XmlToken::Start("b".to_string(), vec![]),
        XmlToken::Start("c".to_string(), vec![]),
    ];
    match build_tree(&tokens) {
        Err(ParseError::Unclosed { open }) => {
            assert_eq!(open, vec!["a".to_string(), "b".to_string(), "c".to_string()]);
        },
        other => panic!("expected an unclosed error, got {:?}", other),
    }
}

#[test]
fn leaf_only_document_has_no_root_element() {
    match parse_xml_file("<a>x</a>") {
        Err(ParseError::NoRootElement) => {},
        other => panic!("expected a no-root error, got {:?}", other),
    }
}

#[test]
fn balance_depth_returns_to_zero_exactly_once() {
    // On a well-formed single-root document the open-element depth stays
    // positive on every interior prefix and is zero exactly at the end.
    let tokens = tokenize("<a><b><c>t</c></b><b/></a>");
    let mut depth: i64 = 0;
    for (i, t) in tokens.iter().enumerate() {
        match t {
            XmlToken::Start(_, _) => depth += 1,
            XmlToken::End(_) => depth -= 1,
            XmlToken::Text(_) => {},
        }
        if i + 1 < tokens.len() {
            assert!(depth > 0);
        }
    }
    assert_eq!(depth, 0);
    assert!(build_tree(&tokens).is_ok());
}

#[test]
fn text_runs_last_one_wins() {
    // interleaved text is not accumulated; the run after the last child tag wins
    let out = parse_xml_file("<r><v>hello<w>1</w>123</v></r>").unwrap();
    assert!(out.contains("v: Vec<V>,"));
    assert!(out.contains("w: u64,"));
}

#[test]
fn attribute_kinds_are_classified() {
    let out = parse_xml_file(
        "<root><a when=\"2024-01-01 10:00:00\" site=\"http://example.com\">x</a></root>",
    )
    .unwrap();
    assert!(out.contains("when: NaiveDateTime,"));
    assert!(out.contains("site: url::Url,"));
}
