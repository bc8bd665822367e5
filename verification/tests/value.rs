use json_formatter::value::{
    invalid_json_message, parse_json_to_value, print_document, printed_document, read_document,
    tree_of, JsonValue, Reading,
};

fn value_of(text: &str) -> serde_json::Value {
    serde_json::from_str::<serde_json::Value>(text).unwrap()
}

#[test]
fn parse_accepts_a_document() {
    let parsed = parse_json_to_value("{\"a\":1,\"b\":[true,null]}").unwrap();
    assert_eq!(parsed, value_of("{\"a\":1,\"b\":[true,null]}"));
    assert_eq!(parsed["a"], serde_json::Value::from(1));
    assert_eq!(parsed["b"][0], serde_json::Value::Bool(true));
    assert_eq!(parsed["b"][1], serde_json::Value::Null);
}

#[test]
fn parse_accepts_every_kind_of_value() {
    assert_eq!(parse_json_to_value("null").unwrap(), serde_json::Value::Null);
    assert_eq!(parse_json_to_value(" false ").unwrap(), serde_json::Value::Bool(false));
    assert_eq!(parse_json_to_value("-3").unwrap(), serde_json::Value::from(-3));
    assert_eq!(parse_json_to_value("\"x\"").unwrap(), serde_json::Value::from("x"));
    assert_eq!(parse_json_to_value("[]").unwrap(), value_of("[]"));
}

#[test]
fn parse_names_the_place_of_the_fault() {
    assert_eq!(
        parse_json_to_value("{\"a\":}"),
        Err("Invalid JSON input: expected value at line 1 column 6".to_string())
    );
    assert_eq!(
        parse_json_to_value(""),
        Err("Invalid JSON input: EOF while parsing a value at line 1 column 0".to_string())
    );
    assert_eq!(
        parse_json_to_value("[1,\n 2"),
        Err("Invalid JSON input: EOF while parsing a list at line 2 column 2".to_string())
    );
}

#[test]
fn parse_rejects_text_behind_the_document() {
    assert_eq!(
        parse_json_to_value("{} x"),
        Err("Invalid JSON input: trailing characters at line 1 column 4".to_string())
    );
}

#[test]
fn invalid_json_message_puts_the_words_in_front() {
    assert_eq!(invalid_json_message("expected value"), "Invalid JSON input: expected value");
    assert_eq!(invalid_json_message(""), "Invalid JSON input: ");
}

#[test]
fn print_indents_by_two_spaces() {
    let value = value_of("{\"a\":1,\"b\":[true,null]}");
    assert_eq!(
        print_document(&value),
        Ok("{\n  \"a\": 1,\n  \"b\": [\n    true,\n    null\n  ]\n}".to_string())
    );
    assert_eq!(print_document(&value_of("[]")), Ok("[]".to_string()));
    assert_eq!(print_document(&value_of("\"x\"")), Ok("\"x\"".to_string()));
}

#[test]
fn print_keeps_the_members_in_the_order_of_the_text() {
    let value = value_of("{\"zeta\":1,\"alpha\":2,\"mid\":3}");
    assert_eq!(
        print_document(&value),
        Ok("{\n  \"zeta\": 1,\n  \"alpha\": 2,\n  \"mid\": 3\n}".to_string())
    );
}

#[test]
fn printed_document_takes_the_text_or_the_cause() {
    assert_eq!(
        printed_document(value_of("[1]"), Ok("[\n  1\n]".to_string())),
        Reading::Document { value: value_of("[1]"), pretty: "[\n  1\n]".to_string() }
    );
    assert_eq!(
        printed_document(value_of("[1]"), Err("key must be a string".to_string())),
        Reading::Unprintable {
            message: "Error pretty-printing JSON: key must be a string".to_string()
        }
    );
}

#[test]
fn read_document_parses_and_prints() {
    assert_eq!(
        read_document("[1, 2]"),
        Reading::Document { value: value_of("[1,2]"), pretty: "[\n  1,\n  2\n]".to_string() }
    );
    assert_eq!(
        read_document("{\"a\":}"),
        Reading::Invalid {
            message: "Invalid JSON input: expected value at line 1 column 6".to_string()
        }
    );
}

#[test]
fn reading_the_printed_form_gives_the_document_again() {
    let texts = [
        "{\"a\":1,\"b\":[true,null]}",
        "{\"zeta\":{\"k\":\"v\\n\\\"q\\\"\"},\"alpha\":[[],{}],\"n\":-1.5e3}",
        "[0, -7, 18446744073709551615, 0.25, \"\\u00e9\"]",
        "\"plain\"",
        "null",
    ];
    for text in texts {
        let first = match read_document(text) {
            Reading::Document { value, pretty } => (value, pretty),
            other => panic!("{:?}", other),
        };
        let second = match read_document(&first.1) {
            Reading::Document { value, pretty } => (value, pretty),
            other => panic!("{:?}", other),
        };
        assert_eq!(second.0, first.0);
        assert_eq!(second.1, first.1);
    }
}

#[test]
fn tree_of_copies_every_kind_of_value() {
    assert_eq!(tree_of(&value_of("null")), JsonValue::Null);
    assert_eq!(tree_of(&value_of("true")), JsonValue::Bool(true));
    assert_eq!(tree_of(&value_of("\"a\\nb\"")), JsonValue::Text("a\nb".to_string()));
    assert_eq!(tree_of(&value_of("12")), JsonValue::Number("12".to_string()));
    assert_eq!(tree_of(&value_of("-12")), JsonValue::Number("-12".to_string()));
    assert_eq!(tree_of(&value_of("1.50")), JsonValue::Number("1.5".to_string()));
    assert_eq!(tree_of(&value_of("1e3")), JsonValue::Number("1000.0".to_string()));
    assert_eq!(tree_of(&value_of("[]")), JsonValue::Array(vec![]));
    assert_eq!(tree_of(&value_of("{}")), JsonValue::Object(vec![]));
}

#[test]
fn tree_of_keeps_order_and_depth() {
    assert_eq!(
        tree_of(&value_of("{\"b\":[1,{\"z\":null,\"a\":[[]]}],\"a\":false}")),
        JsonValue::Object(vec![
            (
                "b".to_string(),
                JsonValue::Array(vec![
                    JsonValue::Number("1".to_string()),
                    JsonValue::Object(vec![
                        ("z".to_string(), JsonValue::Null),
                        ("a".to_string(), JsonValue::Array(vec![JsonValue::Array(vec![])])),
                    ]),
                ]),
            ),
            ("a".to_string(), JsonValue::Bool(false)),
        ])
    );
}
