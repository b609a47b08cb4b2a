use xml_to_serde::kinds::{ValueKind, ValueTypeOption};
use xml_to_serde::schema::{Item, XmlElement, merge_attributes};

fn req(k: ValueKind) -> ValueTypeOption {
    ValueTypeOption::Required(k)
}

fn opt(k: ValueKind) -> ValueTypeOption {
    ValueTypeOption::Optional(k)
}

fn leaf(name: &str, attrs: Vec<(String, ValueTypeOption)>) -> Item {
    Item { name: name.to_string(), value_type: req(ValueKind::Text), attributes: attrs }
}

#[test]
fn merge_idempotence_item() {
    // Merging a schema with itself yields an identical shape: nothing
    // becomes optional when both sides agree.
    let a = leaf(
        "item",
        vec![
            ("id".to_string(), req(ValueKind::Integer)),
            ("href".to_string(), req(ValueKind::Url)),
        ],
    );
    let m = a.merge(&a);
    assert_eq!(m.name, "item");
    assert_eq!(m.value_type, req(ValueKind::Text));
    assert_eq!(
        m.attributes,
        vec![
            ("id".to_string(), req(ValueKind::Integer)),
            ("href".to_string(), req(ValueKind::Url)),
        ]
    );
}

#[test]
fn optional_promotion_symmetry() {
    // The key "only" exists on one side; both merge orders mark it optional.
    let only = vec![
        ("shared".to_string(), req(ValueKind::Integer)),
        ("only".to_string(), req(ValueKind::Url)),
    ];
    let other = vec![("shared".to_string(), req(ValueKind::Integer))];
    let ab = merge_attributes(&only, &other);
    let ba = merge_attributes(&other, &only);
    let ab_only = ab.iter().find(|p| p.0 == "only").unwrap().1;
    let ba_only = ba.iter().find(|p| p.0 == "only").unwrap().1;
    assert_eq!(ab_only, opt(ValueKind::Url));
    assert_eq!(ba_only, opt(ValueKind::Url));
    // the shared key stays required in both orders
    assert_eq!(ab.iter().find(|p| p.0 == "shared").unwrap().1, req(ValueKind::Integer));
    assert_eq!(ba.iter().find(|p| p.0 == "shared").unwrap().1, req(ValueKind::Integer));
}

#[test]
fn later_kind_wins_on_shared_keys() {
    let a = vec![("id".to_string(), req(ValueKind::Integer))];
    let b = vec![("id".to_string(), req(ValueKind::Text))];
    let m = merge_attributes(&a, &b);
    assert_eq!(m, vec![("id".to_string(), req(ValueKind::Text))]);
}

#[test]
fn optional_key_never_reverts_to_required() {
    // Once promoted, a key stays optional even when a later sibling carries
    // it required; the later side still decides the kind.
    let a = vec![("k".to_string(), opt(ValueKind::Integer))];
    let b = vec![("k".to_string(), req(ValueKind::Integer))];
    assert_eq!(merge_attributes(&a, &b), vec![("k".to_string(), opt(ValueKind::Integer))]);
    let c = vec![("k".to_string(), req(ValueKind::Text))];
    assert_eq!(merge_attributes(&a, &c), vec![("k".to_string(), opt(ValueKind::Text))]);
    // an optional tag on the later side alone also keeps the key optional
    let d = vec![("k".to_string(), opt(ValueKind::Text))];
    assert_eq!(merge_attributes(&b, &d), vec![("k".to_string(), opt(ValueKind::Text))]);
}

#[test]
fn promotion_is_transitive_across_three_siblings() {
    // Only the first of three same-named siblings lacks "k": the fold
    // promotes it at the first merge and no later merge wins it back.
    let first = leaf("i", vec![]);
    let second = leaf("i", vec![("k".to_string(), req(ValueKind::Integer))]);
    let third = leaf("i", vec![("k".to_string(), req(ValueKind::Integer))]);
    let folded = first.merge(&second).merge(&third);
    assert_eq!(folded.attributes, vec![("k".to_string(), opt(ValueKind::Integer))]);
}

#[test]
fn merged_order_is_first_side_then_new_keys() {
    let a = vec![("x".to_string(), req(ValueKind::Integer))];
    let b = vec![
        ("y".to_string(), req(ValueKind::Text)),
        ("x".to_string(), req(ValueKind::Integer)),
    ];
    let m = merge_attributes(&a, &b);
    assert_eq!(m.len(), 2);
    assert_eq!(m[0].0, "x");
    assert_eq!(m[1], ("y".to_string(), opt(ValueKind::Text)));
}

#[test]
fn element_merge_groups_repeated_items() {
    let a = XmlElement {
        name: "root".to_string(),
        attributes: vec![],
        items: vec![leaf("item", vec![("id".to_string(), req(ValueKind::Integer))])],
        value_type: req(ValueKind::Unset),
        elements: vec![],
    };
    let b = XmlElement {
        name: "root".to_string(),
        attributes: vec![],
        items: vec![leaf("item", vec![])],
        value_type: req(ValueKind::Unset),
        elements: vec![],
    };
    let m = a.merge(&b);
    // the two same-named leaf items collapse into one; "id" was absent on
    // the second sibling, so it is promoted to optional
    assert_eq!(m.items.len(), 1);
    assert_eq!(m.items[0].name, "item");
    assert_eq!(m.items[0].attributes, vec![("id".to_string(), opt(ValueKind::Integer))]);
}

#[test]
fn element_merge_concatenates_nested_elements() {
    let child = |n: &str| XmlElement {
        name: n.to_string(),
        attributes: vec![],
        items: vec![],
        value_type: req(ValueKind::Unset),
        elements: vec![],
    };
    let a = XmlElement {
        name: "root".to_string(),
        attributes: vec![],
        items: vec![],
        value_type: req(ValueKind::Unset),
        elements: vec![child("a")],
    };
    let b = XmlElement {
        name: "root".to_string(),
        attributes: vec![],
        items: vec![],
        value_type: req(ValueKind::Unset),
        elements: vec![child("b")],
    };
    let m = a.merge(&b);
    assert_eq!(m.elements.len(), 2);
    assert_eq!(m.elements[0].name, "a");
    assert_eq!(m.elements[1].name, "b");
}
