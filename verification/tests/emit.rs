use xml_to_serde::emit::name_check;
use xml_to_serde::kinds::{TsKind, ValueKind, ValueTypeOption};
use xml_to_serde::schema::Item;

fn req(k: ValueKind) -> ValueTypeOption {
    ValueTypeOption::Required(k)
}

#[test]
fn reserved_word_is_escaped() {
    // A field named "type" always emits a renamed in-memory field plus a
    // preserved-original-name annotation.
    assert_eq!(name_check("type"), "  #[serde(rename = \"type\")]\n  type_xml");
    assert_eq!(name_check("id"), "id");
    assert_eq!(name_check("Type"), "Type");
}

#[test]
fn kind_rendering() {
    assert_eq!(req(ValueKind::Text).render(), "String");
    assert_eq!(req(ValueKind::Integer).render(), "u64");
    assert_eq!(req(ValueKind::Float).render(), "f64");
    assert_eq!(req(ValueKind::Url).render(), "url::Url");
    assert_eq!(req(ValueKind::Timestamp(TsKind::Naive)).render(), "NaiveDateTime");
    assert_eq!(
        req(ValueKind::Timestamp(TsKind::Rfc3339)).render(),
        "DateTime<FixedOffset>"
    );
    assert_eq!(ValueTypeOption::Optional(ValueKind::Integer).render(), "Option<u64>");
    // an optional unset kind already reads Option<String> and stays bare
    assert_eq!(ValueTypeOption::Optional(ValueKind::Unset).render(), "Option<String>");
}

#[test]
fn plain_item_renders_its_kind() {
    let item = Item {
        name: "count".to_string(),
        value_type: req(ValueKind::Integer),
        attributes: vec![],
    };
    let (line, promoted) = item.as_serde(&None);
    assert_eq!(line, "count: u64");
    assert!(promoted.is_none());
}

#[test]
fn attributed_item_promotes_a_scoped_struct() {
    let item = Item {
        name: "my_item".to_string(),
        value_type: req(ValueKind::Text),
        attributes: vec![("id".to_string(), req(ValueKind::Integer))],
    };
    let (line, promoted) = item.as_serde(&Some("root".to_string()));
    // inflector turns my_item into MyItem for the type name
    assert_eq!(line, "my_item: root::MyItemElement");
    let st = promoted.unwrap();
    assert!(st.contains("pub struct MyItemElement {"));
    assert!(st.contains("#[serde(rename = \"$value\")]"));
    assert!(st.contains("content_xml: String,"));
    assert!(st.contains("id: u64,"));
}

#[test]
fn attributed_item_without_scope() {
    let item = Item {
        name: "thing".to_string(),
        value_type: req(ValueKind::Text),
        attributes: vec![("when".to_string(), req(ValueKind::Timestamp(TsKind::Naive)))],
    };
    let (line, promoted) = item.as_serde(&None);
    assert_eq!(line, "thing: ThingElement");
    assert!(promoted.unwrap().contains("when: NaiveDateTime,"));
}
