use ex_em_ell::document::Document;
use ex_em_ell::errors::XmlReadError;
use ex_em_ell::schema::{ElementType, Field, FieldValue, RecordSchema, Value};
use ex_em_ell::{from_reader, to_string, to_string_pretty};

fn text_field(tag: &str, text: &str) -> FieldValue {
    FieldValue { tag: tag.to_string(), value: Value::Text(text.to_string()) }
}

fn child_type() -> ElementType {
    ElementType::Record(vec![Field::new("field", None, ElementType::Text)])
}

fn simple_schema() -> RecordSchema {
    RecordSchema::new("Example", vec![Field::new("field", None, ElementType::Text)])
}

fn nested_schema() -> RecordSchema {
    RecordSchema::new("Example", vec![Field::new("child", None, child_type())])
}

fn list_schema() -> RecordSchema {
    RecordSchema::new(
        "Example",
        vec![Field::new("children", None, ElementType::list_of("child", child_type()))],
    )
}

#[test]
fn reads_a_text_field() {
    let value = from_reader(&simple_schema(), b"<example><field>value</field></example>").unwrap();
    assert_eq!(value, Value::Record(vec![text_field("field", "value")]));
}

#[test]
fn text_field_round_trips() {
    let schema = simple_schema();
    let value = from_reader(&schema, b"<example><field>value</field></example>").unwrap();
    let document = Document::new(&schema, value);
    let written = to_string(&document).unwrap();
    assert_eq!(
        written,
        "<?xml version=\"1.0\" encoding=\"UTF-8\"?><example><field>value</field></example>"
    );
    assert_eq!(from_reader(&schema, written.as_bytes()).unwrap(), document.value);
}

#[test]
fn reads_a_nested_record() {
    let value = from_reader(
        &nested_schema(),
        b"<example><child><field>value</field></child></example>",
    )
    .unwrap();
    assert_eq!(
        value,
        Value::Record(vec![FieldValue {
            tag: "child".to_string(),
            value: Value::Record(vec![text_field("field", "value")]),
        }])
    );
}

#[test]
fn missing_child_is_reported_by_tag() {
    let error = from_reader(&nested_schema(), b"<example></example>").unwrap_err();
    assert_eq!(
        error,
        XmlReadError::RequiredDataMissing {
            required_field: "child".to_string(),
            element: "example".to_string(),
        }
    );
}

#[test]
fn first_missing_field_in_declaration_order_is_reported() {
    let schema = RecordSchema::new(
        "Example",
        vec![
            Field::new("first", None, ElementType::Text),
            Field::new("second", None, ElementType::Text),
            Field::new("third", None, ElementType::Text),
        ],
    );
    let error = from_reader(&schema, b"<example><first>a</first></example>").unwrap_err();
    assert_eq!(
        error,
        XmlReadError::RequiredDataMissing {
            required_field: "second".to_string(),
            element: "example".to_string(),
        }
    );
}

#[test]
fn reads_a_list_of_two() {
    let value = from_reader(
        &list_schema(),
        b"<example><children><child><field>a</field></child><child><field>b</field></child></children></example>",
    )
    .unwrap();
    assert_eq!(
        value,
        Value::Record(vec![FieldValue {
            tag: "children".to_string(),
            value: Value::List {
                item_tag: "child".to_string(),
                items: vec![
                    Value::Record(vec![text_field("field", "a")]),
                    Value::Record(vec![text_field("field", "b")]),
                ],
            },
        }])
    );
}

#[test]
fn empty_list_reads_as_no_members_and_is_written_again() {
    let schema = list_schema();
    let value = from_reader(&schema, b"<example><children></children></example>").unwrap();
    assert_eq!(
        value,
        Value::Record(vec![FieldValue {
            tag: "children".to_string(),
            value: Value::List { item_tag: "child".to_string(), items: vec![] },
        }])
    );
    let document = Document::new(&schema, value);
    let written = to_string(&document).unwrap();
    assert_eq!(
        written,
        "<?xml version=\"1.0\" encoding=\"UTF-8\"?><example><children /></example>"
    );
    assert_eq!(from_reader(&schema, written.as_bytes()).unwrap(), document.value);
}

#[test]
fn renamed_field_is_read_under_its_override() {
    let schema = RecordSchema::new(
        "Example",
        vec![Field::new("field_url", Some("fieldURL"), ElementType::Text)],
    );
    let value = from_reader(&schema, b"<example><fieldURL>http://x</fieldURL></example>").unwrap();
    assert_eq!(value, Value::Record(vec![text_field("fieldURL", "http://x")]));
    let written = to_string(&Document::new(&schema, value)).unwrap();
    assert_eq!(
        written,
        "<?xml version=\"1.0\" encoding=\"UTF-8\"?><example><fieldURL>http://x</fieldURL></example>"
    );
}

#[test]
fn field_without_override_is_read_in_lower_camel_case() {
    let schema =
        RecordSchema::new("Example", vec![Field::new("field_url", None, ElementType::Text)]);
    assert_eq!(schema.fields[0].tag, "fieldUrl");
    let value = from_reader(&schema, b"<example><fieldUrl>http://x</fieldUrl></example>").unwrap();
    assert_eq!(value, Value::Record(vec![text_field("fieldUrl", "http://x")]));
}

#[test]
fn root_tag_is_the_type_name_in_lower_camel_case() {
    let schema = RecordSchema::new("ExampleChild", vec![]);
    assert_eq!(schema.tag, "exampleChild");
}

#[test]
fn invalid_boolean_is_reported_with_its_text() {
    let schema =
        RecordSchema::new("Example", vec![Field::new("field", None, ElementType::Boolean)]);
    let error = from_reader(&schema, b"<example><field>maybe</field></example>").unwrap_err();
    assert_eq!(
        error,
        XmlReadError::InvalidParseError {
            value: "maybe".to_string(),
            data_type: "xs:boolean".to_string(),
            element: "field".to_string(),
        }
    );
}

#[test]
fn booleans_are_read_in_all_four_forms() {
    let schema = RecordSchema::new(
        "Example",
        vec![
            Field::new("a", None, ElementType::Boolean),
            Field::new("b", None, ElementType::Boolean),
            Field::new("c", None, ElementType::Boolean),
            Field::new("d", None, ElementType::Boolean),
        ],
    );
    let value = from_reader(
        &schema,
        b"<example><a>true</a><b>1</b><c>false</c><d>0</d></example>",
    )
    .unwrap();
    let flag = |tag: &str, flag: bool| FieldValue { tag: tag.to_string(), value: Value::Boolean(flag) };
    assert_eq!(
        value,
        Value::Record(vec![flag("a", true), flag("b", true), flag("c", false), flag("d", false)])
    );
    assert_eq!(
        to_string(&Document::new(&schema, value)).unwrap(),
        "<?xml version=\"1.0\" encoding=\"UTF-8\"?><example><a>true</a><b>true</b><c>false</c><d>false</d></example>"
    );
}

#[test]
fn unsigned_fields_are_read_and_written_in_decimal() {
    let schema =
        RecordSchema::new("Example", vec![Field::new("count", None, ElementType::Unsigned)]);
    let value = from_reader(&schema, b"<example><count>4294967295</count></example>").unwrap();
    assert_eq!(
        value,
        Value::Record(vec![FieldValue {
            tag: "count".to_string(),
            value: Value::Unsigned(4294967295),
        }])
    );
    assert_eq!(
        to_string(&Document::new(&schema, value)).unwrap(),
        "<?xml version=\"1.0\" encoding=\"UTF-8\"?><example><count>4294967295</count></example>"
    );
}

#[test]
fn unsigned_overflow_is_reported() {
    let schema =
        RecordSchema::new("Example", vec![Field::new("count", None, ElementType::Unsigned)]);
    let error = from_reader(&schema, b"<example><count>4294967296</count></example>").unwrap_err();
    assert_eq!(
        error,
        XmlReadError::InvalidParseError {
            value: "4294967296".to_string(),
            data_type: "xs:integer".to_string(),
            element: "count".to_string(),
        }
    );
}

#[test]
fn unknown_child_is_rejected() {
    let error = from_reader(
        &simple_schema(),
        b"<example><field>value</field><other>x</other></example>",
    )
    .unwrap_err();
    match error {
        XmlReadError::UnexpectedElementReadError { error, element } => {
            assert_eq!(element, "example");
            assert!(error.starts_with("Got unexpected element StartElement(other"));
        }
        other => panic!("unexpected error {other:?}"),
    }
}

#[test]
fn wrong_member_tag_in_a_list_names_the_expected_one() {
    let error = from_reader(
        &list_schema(),
        b"<example><children><kid><field>a</field></kid></children></example>",
    )
    .unwrap_err();
    match error {
        XmlReadError::UnexpectedElementReadError { error, element } => {
            assert_eq!(element, "children");
            assert!(error.starts_with("Got unexpected element StartElement(kid"));
            assert!(error.ends_with(", expected one of: child"));
        }
        other => panic!("unexpected error {other:?}"),
    }
}

#[test]
fn wrong_root_is_rejected() {
    let error = from_reader(&simple_schema(), b"<sample><field>value</field></sample>").unwrap_err();
    match error {
        XmlReadError::UnexpectedElementReadError { error, element } => {
            assert_eq!(element, "example");
            assert!(error.starts_with("Got unexpected element StartElement(sample"));
        }
        other => panic!("unexpected error {other:?}"),
    }
}

#[test]
fn malformed_document_is_a_reader_failure() {
    let error = from_reader(&simple_schema(), b"<example><field>value</example>").unwrap_err();
    match error {
        XmlReadError::ElementReadError { element, .. } => assert_eq!(element, "field"),
        other => panic!("unexpected error {other:?}"),
    }
}

#[test]
fn fields_are_accepted_in_any_order_and_written_in_declaration_order() {
    let schema = RecordSchema::new(
        "Example",
        vec![
            Field::new("first", None, ElementType::Text),
            Field::new("second", None, ElementType::Text),
        ],
    );
    let value =
        from_reader(&schema, b"<example><second>b</second><first>a</first></example>").unwrap();
    assert_eq!(value, Value::Record(vec![text_field("first", "a"), text_field("second", "b")]));
    assert_eq!(
        to_string(&Document::new(&schema, value)).unwrap(),
        "<?xml version=\"1.0\" encoding=\"UTF-8\"?><example><first>a</first><second>b</second></example>"
    );
}

#[test]
fn later_occurrence_of_a_field_overwrites() {
    let value = from_reader(
        &simple_schema(),
        b"<example><field>one</field><field>two</field></example>",
    )
    .unwrap();
    assert_eq!(value, Value::Record(vec![text_field("field", "two")]));
}

#[test]
fn whitespace_between_elements_is_ignored() {
    let value = from_reader(
        &nested_schema(),
        b"<?xml version=\"1.0\"?>\n<example>\n  <child>\n    <field>value</field>\n  </child>\n</example>\n",
    )
    .unwrap();
    assert_eq!(
        value,
        Value::Record(vec![FieldValue {
            tag: "child".to_string(),
            value: Value::Record(vec![text_field("field", "value")]),
        }])
    );
}

#[test]
fn cdata_is_read_as_text() {
    let value =
        from_reader(&simple_schema(), b"<example><field><![CDATA[a<b]]></field></example>").unwrap();
    assert_eq!(value, Value::Record(vec![text_field("field", "a<b")]));
}

#[test]
fn pretty_output_is_indented() {
    let schema = nested_schema();
    let value = from_reader(&schema, b"<example><child><field>value</field></child></example>")
        .unwrap();
    assert_eq!(
        to_string_pretty(&Document::new(&schema, value)).unwrap(),
        "<?xml version=\"1.0\" encoding=\"UTF-8\"?>\n<example>\n  <child>\n    <field>value</field>\n  </child>\n</example>"
    );
}

#[test]
fn text_is_escaped_on_writing() {
    let schema = simple_schema();
    let document = Document::new(&schema, Value::Record(vec![text_field("field", "a<b&c")]));
    let written = to_string(&document).unwrap();
    assert_eq!(
        written,
        "<?xml version=\"1.0\" encoding=\"UTF-8\"?><example><field>a&lt;b&amp;c</field></example>"
    );
    assert_eq!(from_reader(&schema, written.as_bytes()).unwrap(), document.value);
}

#[test]
fn namespaced_element_is_named_in_full_in_errors() {
    let schema =
        RecordSchema::new("Example", vec![Field::new("field", None, ElementType::Boolean)]);
    let error = from_reader(
        &schema,
        b"<p:example xmlns:p=\"urn:x\"><p:field>maybe</p:field></p:example>",
    )
    .unwrap_err();
    assert_eq!(
        error,
        XmlReadError::InvalidParseError {
            value: "maybe".to_string(),
            data_type: "xs:boolean".to_string(),
            element: "{urn:x}p:field".to_string(),
        }
    );
}

fn pretty_round_trip(schema: &RecordSchema, document: &str) -> String {
    let value = from_reader(schema, document.as_bytes()).expect("Failed to parse the XML file");
    to_string_pretty(&Document::new(schema, value)).expect("Failed to output XML")
}

#[test]
fn simple_test_example_xmls() {
    let schema = RecordSchema::new(
        "Example",
        vec![Field::new("field", None, ElementType::Text), Field::new("child", None, child_type())],
    );
    let round_trip = pretty_round_trip(
        &schema,
        "<?xml version=\"1.0\" encoding=\"UTF-8\"?>\n<example>\n    <field>top</field>\n    <child>\n        <field>nested</field>\n    </child>\n</example>\n",
    );
    assert_eq!(
        round_trip,
        "<?xml version=\"1.0\" encoding=\"UTF-8\"?>\n<example>\n  <field>top</field>\n  <child>\n    <field>nested</field>\n  </child>\n</example>"
    );
}

#[test]
fn lists_test_example_xmls() {
    let round_trip = pretty_round_trip(
        &list_schema(),
        "<example>\n  <children>\n    <child><field>a</field></child>\n    <child><field>b</field></child>\n  </children>\n</example>",
    );
    assert_eq!(
        round_trip,
        "<?xml version=\"1.0\" encoding=\"UTF-8\"?>\n<example>\n  <children>\n    <child>\n      <field>a</field>\n    </child>\n    <child>\n      <field>b</field>\n    </child>\n  </children>\n</example>"
    );
    let empty = pretty_round_trip(&list_schema(), "<example><children/></example>");
    assert_eq!(
        empty,
        "<?xml version=\"1.0\" encoding=\"UTF-8\"?>\n<example>\n  <children />\n</example>"
    );
}

#[test]
fn rename_test_example_xmls() {
    let schema = RecordSchema::new(
        "Example",
        vec![
            Field::new("field_url", Some("fieldURL"), ElementType::Text),
            Field::new(
                "child_url",
                Some("childURL"),
                ElementType::Record(vec![Field::new(
                    "field_url",
                    Some("fieldURL"),
                    ElementType::Text,
                )]),
            ),
        ],
    );
    let round_trip = pretty_round_trip(
        &schema,
        "<example><fieldURL>http://x</fieldURL><childURL><fieldURL>http://y</fieldURL></childURL></example>",
    );
    assert_eq!(
        round_trip,
        "<?xml version=\"1.0\" encoding=\"UTF-8\"?>\n<example>\n  <fieldURL>http://x</fieldURL>\n  <childURL>\n    <fieldURL>http://y</fieldURL>\n  </childURL>\n</example>"
    );
}
