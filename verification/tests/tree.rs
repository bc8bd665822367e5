use json_formatter::highlight::{create_highlighted_layout_sections, LayoutSection, SectionStyle};
use json_formatter::span::Span;
use json_formatter::tree::{
    make_label, render_document, render_json_value, GroupKind, Label, LabelKind, Node,
};
use json_formatter::value::JsonValue;

fn plain(start: usize, end: usize) -> LayoutSection {
    Span { start, end, kind: SectionStyle::Plain }
}

fn hit(start: usize, end: usize) -> LayoutSection {
    Span { start, end, kind: SectionStyle::Highlighted }
}

fn label(text: &str, kind: LabelKind, query: &str) -> Label {
    Label {
        text: text.to_string(),
        sections: create_highlighted_layout_sections(text, query),
        kind,
    }
}

fn value_of(text: &str) -> serde_json::Value {
    serde_json::from_str::<serde_json::Value>(text).unwrap()
}

fn key_labels(node: &Node, out: &mut Vec<Label>) {
    match node {
        Node::Leaf { key, .. } => {
            if let Some(key) = key {
                out.push(Label { text: key.text.clone(), sections: key.sections.clone(), kind: key.kind });
            }
        }
        Node::Group { key, children, .. } => {
            if let Some(key) = key {
                out.push(Label { text: key.text.clone(), sections: key.sections.clone(), kind: key.kind });
            }
            for child in children {
                key_labels(child, out);
            }
        }
    }
}

#[test]
fn make_label_lays_out_the_text() {
    assert_eq!(
        make_label("\"name\"".to_string(), LabelKind::Text, "AM"),
        Label {
            text: "\"name\"".to_string(),
            sections: vec![plain(0, 2), hit(2, 4), plain(4, 6)],
            kind: LabelKind::Text,
        }
    );
    assert_eq!(
        make_label("12".to_string(), LabelKind::Number, ""),
        Label { text: "12".to_string(), sections: vec![plain(0, 2)], kind: LabelKind::Number }
    );
}

#[test]
fn scalars_are_leaves() {
    assert_eq!(
        render_json_value(None, &JsonValue::Null, "$", ""),
        Node::Leaf { key: None, value: label("null", LabelKind::Null, "") }
    );
    assert_eq!(
        render_json_value(None, &JsonValue::Bool(true), "$", ""),
        Node::Leaf { key: None, value: label("true", LabelKind::Bool, "") }
    );
    assert_eq!(
        render_json_value(None, &JsonValue::Bool(false), "$", ""),
        Node::Leaf { key: None, value: label("false", LabelKind::Bool, "") }
    );
    assert_eq!(
        render_json_value(None, &JsonValue::Number("-1.5".to_string()), "$", ""),
        Node::Leaf { key: None, value: label("-1.5", LabelKind::Number, "") }
    );
    assert_eq!(
        render_json_value(None, &JsonValue::Text("hi".to_string()), "$", ""),
        Node::Leaf { key: None, value: label("\"hi\"", LabelKind::Text, "") }
    );
}

#[test]
fn a_key_is_shown_in_quotes_with_a_colon() {
    assert_eq!(
        render_json_value(Some("id"), &JsonValue::Number("7".to_string()), "$.id", ""),
        Node::Leaf {
            key: Some(label("\"id\":", LabelKind::Key, "")),
            value: label("7", LabelKind::Number, ""),
        }
    );
}

#[test]
fn empty_containers_are_groups_without_children() {
    assert_eq!(
        render_json_value(None, &JsonValue::Object(vec![]), "$", ""),
        Node::Group {
            key: None,
            kind: GroupKind::Object,
            header: "{ ... } (0 items)".to_string(),
            id: "$_object".to_string(),
            children: vec![],
        }
    );
    assert_eq!(
        render_json_value(Some("list"), &JsonValue::Array(vec![]), "$.list", ""),
        Node::Group {
            key: Some(label("\"list\":", LabelKind::Key, "")),
            kind: GroupKind::Array,
            header: "[ ... ] (0 items)".to_string(),
            id: "$.list_array".to_string(),
            children: vec![],
        }
    );
}

#[test]
fn paths_name_members_and_elements() {
    let value = JsonValue::Object(vec![(
        "rows".to_string(),
        JsonValue::Array(vec![
            JsonValue::Object(vec![("x".to_string(), JsonValue::Null)]),
            JsonValue::Array(vec![]),
        ]),
    )]);
    let node = render_json_value(None, &value, "$", "");
    let rows = match &node {
        Node::Group { id, children, .. } => {
            assert_eq!(id, "$_object");
            &children[0]
        }
        other => panic!("{:?}", other),
    };
    let elements = match rows {
        Node::Group { id, kind, children, .. } => {
            assert_eq!(id, "$.rows_array");
            assert_eq!(*kind, GroupKind::Array);
            children
        }
        other => panic!("{:?}", other),
    };
    match &elements[0] {
        Node::Group { key, id, kind, .. } => {
            assert_eq!(*key, None);
            assert_eq!(id, "$.rows[0]_object");
            assert_eq!(*kind, GroupKind::Object);
        }
        other => panic!("{:?}", other),
    }
    match &elements[1] {
        Node::Group { id, .. } => assert_eq!(id, "$.rows[1]_array"),
        other => panic!("{:?}", other),
    }
}

#[test]
fn headers_count_the_items() {
    let items: Vec<JsonValue> = (0..12).map(|_| JsonValue::Null).collect();
    match render_json_value(None, &JsonValue::Array(items), "$", "") {
        Node::Group { header, children, .. } => {
            assert_eq!(header, "[ ... ] (12 items)");
            assert_eq!(children.len(), 12);
        }
        other => panic!("{:?}", other),
    }
    let one = JsonValue::Object(vec![("k".to_string(), JsonValue::Null)]);
    match render_json_value(None, &one, "$", "") {
        Node::Group { header, .. } => assert_eq!(header, "{ ... } (1 items)"),
        other => panic!("{:?}", other),
    }
}

#[test]
fn formatted_document_is_shown_as_a_tree() {
    let node = render_document(&value_of("{\"a\":1,\"b\":[true,null]}"), "");
    assert_eq!(
        node,
        Node::Group {
            key: None,
            kind: GroupKind::Object,
            header: "{ ... } (2 items)".to_string(),
            id: "$_object".to_string(),
            children: vec![
                Node::Leaf {
                    key: Some(label("\"a\":", LabelKind::Key, "")),
                    value: label("1", LabelKind::Number, ""),
                },
                Node::Group {
                    key: Some(label("\"b\":", LabelKind::Key, "")),
                    kind: GroupKind::Array,
                    header: "[ ... ] (2 items)".to_string(),
                    id: "$.b_array".to_string(),
                    children: vec![
                        Node::Leaf { key: None, value: label("true", LabelKind::Bool, "") },
                        Node::Leaf { key: None, value: label("null", LabelKind::Null, "") },
                    ],
                },
            ],
        }
    );
}

#[test]
fn document_and_hand_built_value_are_shown_alike() {
    let built = JsonValue::Object(vec![
        ("s".to_string(), JsonValue::Text("a\"b".to_string())),
        ("n".to_string(), JsonValue::Number("2.5".to_string())),
        ("big".to_string(), JsonValue::Number("18446744073709551615".to_string())),
        ("neg".to_string(), JsonValue::Number("-3".to_string())),
        ("t".to_string(), JsonValue::Bool(false)),
    ]);
    let text = "{\"s\":\"a\\\"b\",\"n\":2.5,\"big\":18446744073709551615,\"neg\":-3,\"t\":false}";
    assert_eq!(render_document(&value_of(text), "b"), render_json_value(None, &built, "$", "b"));
}

#[test]
fn members_are_shown_in_the_order_of_the_text() {
    let node = render_document(&value_of("{\"zeta\":1,\"alpha\":2}"), "");
    let mut keys = Vec::new();
    key_labels(&node, &mut keys);
    let texts: Vec<&str> = keys.iter().map(|key| key.text.as_str()).collect();
    assert_eq!(texts, vec!["\"zeta\":", "\"alpha\":"]);
}

#[test]
fn search_highlights_every_occurrence_in_every_key() {
    let text = "{\"Name\":1,\"surname\":{\"nickNAME\":2,\"other\":3},\"banana\":[{\"NaN\":4}]}";
    let node = render_document(&value_of(text), "na");
    let mut keys = Vec::new();
    key_labels(&node, &mut keys);
    let found: Vec<(&str, Vec<LayoutSection>)> =
        keys.iter().map(|key| (key.text.as_str(), key.sections.clone())).collect();
    assert_eq!(
        found,
        vec![
            ("\"Name\":", vec![plain(0, 1), hit(1, 3), plain(3, 7)]),
            ("\"surname\":", vec![plain(0, 4), hit(4, 6), plain(6, 10)]),
            ("\"nickNAME\":", vec![plain(0, 5), hit(5, 7), plain(7, 11)]),
            ("\"other\":", vec![plain(0, 8)]),
            ("\"banana\":", vec![plain(0, 3), hit(3, 5), hit(5, 7), plain(7, 9)]),
            ("\"NaN\":", vec![plain(0, 1), hit(1, 3), plain(3, 6)]),
        ]
    );
}

#[test]
fn search_highlights_values_too() {
    let node = render_document(&value_of("[\"Alpha\", 1024, true, null]"), "L");
    let values: Vec<Vec<LayoutSection>> = match node {
        Node::Group { children, .. } => children
            .into_iter()
            .map(|child| match child {
                Node::Leaf { value, .. } => value.sections,
                other => panic!("{:?}", other),
            })
            .collect(),
        other => panic!("{:?}", other),
    };
    assert_eq!(
        values,
        vec![
            vec![plain(0, 2), hit(2, 3), plain(3, 7)],
            vec![plain(0, 4)],
            vec![plain(0, 4)],
            vec![plain(0, 2), hit(2, 3), hit(3, 4)],
        ]
    );
}
