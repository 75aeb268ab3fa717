use ex_em_ell::document::{
    expect_document_end, expect_document_root, expect_document_start, read_document, Document,
};
use ex_em_ell::element::{record_step, RecordStep};
use ex_em_ell::errors::XmlReadError;
use ex_em_ell::event::{Attribute, ElementName, Namespace, XmlEvent, XmlEventKind};
use ex_em_ell::reader::EventReader;
use ex_em_ell::writer::EventSink;
use ex_em_ell::schema::{has_distinct_tags, ElementType, Field, FieldValue, RecordSchema, Value};
use ex_em_ell::traits::{FromXmlDocument, FromXmlElement, ToXmlDocument, ToXmlElement};
use ex_em_ell::xml_utils::{list_step, ListStep};

fn event(kind: XmlEventKind, shown: &str) -> XmlEvent {
    XmlEvent {
        kind,
        attributes: vec![],
        namespace: Namespace { bindings: vec![] },
        shown: shown.to_string(),
    }
}

fn no_namespace() -> Namespace {
    Namespace { bindings: vec![] }
}

fn field_step(index: usize, name: ElementName) -> RecordStep {
    RecordStep::Field { index, name, attributes: vec![], namespace: no_namespace() }
}

fn opening(tag: &str) -> XmlEvent {
    event(XmlEventKind::StartElement { name: ElementName::local(tag) }, "StartElement")
}

fn closing(tag: &str) -> XmlEvent {
    event(XmlEventKind::EndElement { name: ElementName::local(tag) }, "EndElement")
}

fn out_of_place(element: &str, shown: &str) -> XmlReadError {
    XmlReadError::UnexpectedElementReadError {
        error: format!("Got unexpected element {shown}"),
        element: element.to_string(),
    }
}

fn two_fields() -> Vec<Field> {
    vec![Field::new("first", None, ElementType::Text), Field::new("second_one", None, ElementType::Text)]
}

#[test]
fn record_step_opens_the_field_with_the_tag() {
    let record = ElementName::local("rec");
    assert_eq!(
        record_step(&two_fields(), &record, opening("secondOne")),
        Ok(field_step(1, ElementName::local("secondOne")))
    );
    assert_eq!(
        record_step(&two_fields(), &record, opening("first")),
        Ok(field_step(0, ElementName::local("first")))
    );
}

#[test]
fn record_step_goes_by_the_local_name_of_a_child() {
    let record = ElementName::local("rec");
    let child = ElementName {
        local_name: "first".to_string(),
        namespace: Some("urn:x".to_string()),
        prefix: Some("p".to_string()),
    };
    assert_eq!(
        record_step(
            &two_fields(),
            &record,
            event(XmlEventKind::StartElement { name: child.duplicate() }, "StartElement"),
        ),
        Ok(field_step(0, child))
    );
}

#[test]
fn record_step_closes_on_the_closing_tag_of_the_record() {
    let record = ElementName::local("rec");
    assert_eq!(record_step(&two_fields(), &record, closing("rec")), Ok(RecordStep::Closed));
}

#[test]
fn record_step_rejects_everything_else() {
    let record = ElementName::local("rec");
    assert_eq!(
        record_step(&two_fields(), &record, opening("second_one")),
        Err(out_of_place("rec", "StartElement"))
    );
    assert_eq!(
        record_step(&two_fields(), &record, closing("first")),
        Err(out_of_place("rec", "EndElement"))
    );
    assert_eq!(
        record_step(
            &two_fields(),
            &record,
            event(XmlEventKind::Characters("x".to_string()), "Characters(x)"),
        ),
        Err(out_of_place("rec", "Characters(x)"))
    );
    assert_eq!(
        record_step(&two_fields(), &record, event(XmlEventKind::EndDocument, "EndDocument")),
        Err(out_of_place("rec", "EndDocument"))
    );
    assert_eq!(
        record_step(&two_fields(), &record, event(XmlEventKind::Other, "Comment(c)")),
        Err(out_of_place("rec", "Comment(c)"))
    );
}

#[test]
fn list_step_opens_members_and_closes_the_list() {
    let list = ElementName::local("list");
    assert_eq!(
        list_step(&list, "item", opening("item")),
        Ok(ListStep::Member {
            name: ElementName::local("item"),
            attributes: vec![],
            namespace: no_namespace(),
        })
    );
    assert_eq!(list_step(&list, "item", closing("list")), Ok(ListStep::Closed));
}

#[test]
fn list_step_rejects_everything_else_and_names_the_member_tag() {
    let list = ElementName::local("list");
    let rejected = |shown: &str| XmlReadError::UnexpectedElementReadError {
        error: format!("Got unexpected element {shown}, expected one of: item"),
        element: "list".to_string(),
    };
    assert_eq!(list_step(&list, "item", opening("list")), Err(rejected("StartElement")));
    assert_eq!(list_step(&list, "item", closing("item")), Err(rejected("EndElement")));
    assert_eq!(
        list_step(&list, "item", event(XmlEventKind::CData("x".to_string()), "CData(x)")),
        Err(rejected("CData(x)"))
    );
}

#[test]
fn document_steps_accept_their_event_only() {
    let start = || event(XmlEventKind::StartDocument, "StartDocument");
    let end = || event(XmlEventKind::EndDocument, "EndDocument");
    assert_eq!(expect_document_start("root", start()), Ok(()));
    assert_eq!(expect_document_start("root", end()), Err(out_of_place("root", "EndDocument")));
    assert_eq!(expect_document_end("root", end()), Ok(()));
    assert_eq!(expect_document_end("root", start()), Err(out_of_place("root", "StartDocument")));
    assert_eq!(expect_document_root("root", opening("root")), Ok(ElementName::local("root")));
    assert_eq!(
        expect_document_root("root", opening("other")),
        Err(out_of_place("root", "StartElement"))
    );
    assert_eq!(
        expect_document_root("root", closing("root")),
        Err(out_of_place("root", "EndElement"))
    );
}

#[test]
fn element_after_the_root_is_out_of_place() {
    let schema = RecordSchema::new("Example", vec![]);
    let mut reader = EventReader::new(b"<example/><example/>".to_vec());
    match read_document(&schema, &mut reader) {
        Err(XmlReadError::UnexpectedElementReadError { error, element }) => {
            assert_eq!(element, "example");
            assert!(error.starts_with("Got unexpected element StartElement(example, "));
        }
        other => panic!("unexpected result {other:?}"),
    }
}

#[test]
fn document_without_a_declaration_or_with_one_is_read() {
    let schema = RecordSchema::new("Example", vec![]);
    let mut bare = EventReader::new(b"<example/>".to_vec());
    assert_eq!(read_document(&schema, &mut bare), Ok(Value::Record(vec![])));
    let mut declared =
        EventReader::new(b"<?xml version=\"1.0\" encoding=\"UTF-8\"?><example></example>".to_vec());
    assert_eq!(read_document(&schema, &mut declared), Ok(Value::Record(vec![])));
}

#[test]
fn empty_input_is_a_reader_failure() {
    let schema = RecordSchema::new("Example", vec![]);
    let mut reader = EventReader::new(Vec::new());
    match schema.from_xml_document(&mut reader) {
        Err(XmlReadError::ElementReadError { element, .. }) => assert_eq!(element, "example"),
        other => panic!("unexpected result {other:?}"),
    }
}

#[test]
fn shapes_read_elements() {
    let mut reader = EventReader::new(b"<n>12</n>".to_vec());
    reader.next().unwrap();
    reader.next().unwrap();
    assert_eq!(
        ElementType::Unsigned.from_xml_element(
            &mut reader,
            &ElementName::local("n"),
            &vec![],
            &no_namespace(),
        ),
        Ok(Value::Unsigned(12))
    );
}

#[test]
fn distinct_tags_are_recognised() {
    assert!(has_distinct_tags(&vec![]));
    assert!(has_distinct_tags(&two_fields()));
    let mut fields = two_fields();
    fields.push(Field::new("first", None, ElementType::Boolean));
    assert!(!has_distinct_tags(&fields));
    let renamed = vec![
        Field::new("a", Some("x"), ElementType::Text),
        Field::new("b", Some("x"), ElementType::Text),
    ];
    assert!(!has_distinct_tags(&renamed));
}

#[test]
fn ambiguity_is_found_at_any_depth() {
    let clash = || {
        ElementType::Record(vec![
            Field::new("a", None, ElementType::Text),
            Field::new("a", None, ElementType::Text),
        ])
    };
    assert!(ElementType::Text.is_unambiguous());
    assert!(ElementType::Record(two_fields()).is_unambiguous());
    assert!(!clash().is_unambiguous());
    assert!(!ElementType::list_of("item", clash()).is_unambiguous());
    assert!(ElementType::list_of("item", ElementType::Record(two_fields())).is_unambiguous());
    let nested = RecordSchema::new("Example", vec![Field::new("inner", None, clash())]);
    assert!(!nested.is_unambiguous());
    assert!(RecordSchema::new("Example", two_fields()).is_unambiguous());
    let at_root = RecordSchema::new(
        "Example",
        vec![Field::new("a", None, ElementType::Text), Field::new("a", None, ElementType::Text)],
    );
    assert!(!at_root.is_unambiguous());
}

#[test]
fn values_conform_to_their_shape_only() {
    let shape = ElementType::Record(vec![
        Field::new("name", None, ElementType::Text),
        Field::new("counts", None, ElementType::list_of("count", ElementType::Unsigned)),
    ]);
    let value = |tag: &str, item_tag: &str, item: Value| {
        Value::Record(vec![
            FieldValue { tag: tag.to_string(), value: Value::Text("n".to_string()) },
            FieldValue {
                tag: "counts".to_string(),
                value: Value::List { item_tag: item_tag.to_string(), items: vec![item] },
            },
        ])
    };
    assert!(value("name", "count", Value::Unsigned(1)).conforms_to(&shape));
    assert!(!value("nome", "count", Value::Unsigned(1)).conforms_to(&shape));
    assert!(!value("name", "item", Value::Unsigned(1)).conforms_to(&shape));
    assert!(!value("name", "count", Value::Boolean(true)).conforms_to(&shape));
    assert!(!Value::Record(vec![]).conforms_to(&shape));
    assert!(!Value::Text("n".to_string()).conforms_to(&shape));
    assert!(Value::Text("n".to_string()).conforms_to(&ElementType::Text));
    assert!(Value::Boolean(true).conforms_to(&ElementType::Boolean));
    assert!(!Value::Boolean(true).conforms_to(&ElementType::Unsigned));
    assert!(Value::Unsigned(1).conforms_to(&ElementType::Unsigned));
    assert!(Value::List { item_tag: "count".to_string(), items: vec![] }
        .conforms_to(&ElementType::list_of("count", ElementType::Unsigned)));
}

#[test]
fn what_is_read_conforms_to_the_schema() {
    let schema = RecordSchema::new(
        "Example",
        vec![
            Field::new("name", None, ElementType::Text),
            Field::new("counts", None, ElementType::list_of("count", ElementType::Unsigned)),
        ],
    );
    let value = ex_em_ell::from_reader(
        &schema,
        b"<example><counts><count>1</count></counts><name>n</name></example>",
    )
    .unwrap();
    let shape = ElementType::Record(schema.fields);
    assert!(value.conforms_to(&shape));
}

#[test]
fn document_is_written_under_the_root_tag_of_the_schema() {
    let schema = RecordSchema::new("ExampleChild", vec![Field::new("on", None, ElementType::Boolean)]);
    let document = Document::new(
        &schema,
        Value::Record(vec![FieldValue { tag: "on".to_string(), value: Value::Boolean(true) }]),
    );
    assert_eq!(document.tag, "exampleChild");
    let mut writer = EventSink::new(false);
    document.to_xml_document(&mut writer).unwrap();
    assert_eq!(
        writer.into_string(),
        "<?xml version=\"1.0\" encoding=\"UTF-8\"?><exampleChild><on>true</on></exampleChild>"
    );
    let mut writer = EventSink::new(false);
    document.value.to_xml_element(&mut writer, "other").unwrap();
    assert_eq!(
        writer.into_string(),
        "<?xml version=\"1.0\" encoding=\"UTF-8\"?><other><on>true</on></other>"
    );
}

#[test]
fn omitted_field_of_a_written_document_is_named() {
    let schema = RecordSchema::new(
        "Example",
        vec![
            Field::new("a", None, ElementType::Text),
            Field::new("b", None, ElementType::Unsigned),
            Field::new("c", None, ElementType::Boolean),
        ],
    );
    let missing = |document: &str| {
        match ex_em_ell::from_reader(&schema, document.as_bytes()) {
            Err(XmlReadError::RequiredDataMissing { required_field, element }) => {
                assert_eq!(element, "example");
                required_field
            }
            other => panic!("unexpected result {other:?}"),
        }
    };
    assert_eq!(missing("<example><b>1</b><c>true</c></example>"), "a");
    assert_eq!(missing("<example><a>x</a><c>true</c></example>"), "b");
    assert_eq!(missing("<example><a>x</a><b>1</b></example>"), "c");
}

#[test]
fn steps_hand_on_the_attributes_and_namespace_of_the_opening_tag() {
    let attributes =
        vec![Attribute { name: ElementName::local("unit"), value: "m".to_string() }];
    let namespace = Namespace { bindings: vec![("p".to_string(), "urn:x".to_string())] };
    let tagged = |tag: &str| XmlEvent {
        kind: XmlEventKind::StartElement { name: ElementName::local(tag) },
        attributes: attributes.clone(),
        namespace: namespace.clone(),
        shown: "StartElement".to_string(),
    };
    assert_eq!(
        record_step(&two_fields(), &ElementName::local("rec"), tagged("first")),
        Ok(RecordStep::Field {
            index: 0,
            name: ElementName::local("first"),
            attributes: attributes.clone(),
            namespace: namespace.clone(),
        })
    );
    assert_eq!(
        list_step(&ElementName::local("list"), "item", tagged("item")),
        Ok(ListStep::Member {
            name: ElementName::local("item"),
            attributes: attributes.clone(),
            namespace: namespace.clone(),
        })
    );
}
