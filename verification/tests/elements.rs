use ex_em_ell::element::{find_field, read_element, read_record, write_element};
use ex_em_ell::errors::{XmlReadError, XmlWriteError};
use ex_em_ell::event::{Attribute, ElementName, Namespace, XmlEvent, XmlEventKind};
use ex_em_ell::reader::EventReader;
use ex_em_ell::writer::EventSink;
use ex_em_ell::schema::{ElementType, Field, FieldValue, Value};
use ex_em_ell::xml_utils::{
    closing_tag_or_error, inner_text_or_error, read_list_tag, read_simple_tag,
    to_xml_read_error, to_xml_write_error, unexpected_element_error,
    unexpected_element_with_known_values_error, write_simple_tag,
};

fn reader_inside_root(document: &str) -> (EventReader, ElementName) {
    let mut reader = EventReader::new(document.as_bytes().to_vec());
    let opening = reader.next().unwrap();
    assert_eq!(opening.kind, XmlEventKind::StartDocument);
    match reader.next().unwrap().kind {
        XmlEventKind::StartElement { name } => (reader, name),
        other => panic!("unexpected event {other:?}"),
    }
}

fn event(kind: XmlEventKind, shown: &str) -> XmlEvent {
    XmlEvent {
        kind,
        attributes: vec![],
        namespace: Namespace { bindings: vec![] },
        shown: shown.to_string(),
    }
}

fn written(writer: EventSink) -> String {
    writer.into_string()
}

#[test]
fn events_are_pulled_with_their_rendering() {
    let mut reader = EventReader::new(b"<a><b>text</b><!-- note --><?pi data?></a>".to_vec());
    let first = reader.next().unwrap();
    assert_eq!(first.kind, XmlEventKind::StartDocument);
    assert_eq!(first.shown, "StartDocument(1.0, UTF-8, None)");
    let second = reader.next().unwrap();
    assert_eq!(second.kind, XmlEventKind::StartElement { name: ElementName::local("a") });
    assert!(second.shown.starts_with("StartElement(a, {"));
    assert_eq!(
        reader.next().unwrap().kind,
        XmlEventKind::StartElement { name: ElementName::local("b") }
    );
    let text = reader.next().unwrap();
    assert_eq!(text.kind, XmlEventKind::Characters("text".to_string()));
    assert_eq!(text.shown, "Characters(text)");
    let closing = reader.next().unwrap();
    assert_eq!(closing.kind, XmlEventKind::EndElement { name: ElementName::local("b") });
    assert_eq!(closing.shown, "EndElement(b)");
    let instruction = reader.next().unwrap();
    assert_eq!(instruction.kind, XmlEventKind::Other);
    assert_eq!(instruction.shown, "ProcessingInstruction(pi, data)");
    assert_eq!(
        reader.next().unwrap().kind,
        XmlEventKind::EndElement { name: ElementName::local("a") }
    );
    assert_eq!(reader.next().unwrap().kind, XmlEventKind::EndDocument);
    assert_eq!(reader.next().unwrap().kind, XmlEventKind::EndDocument);
}

#[test]
fn simple_tag_is_read_through_its_closing_tag() {
    let (mut reader, root) = reader_inside_root("<root>text</root>");
    assert_eq!(read_simple_tag(&mut reader, &root), Ok("text".to_string()));
    assert_eq!(reader.next().unwrap().kind, XmlEventKind::EndDocument);
}

#[test]
fn simple_tag_with_a_child_is_rejected() {
    let (mut reader, root) = reader_inside_root("<root><child/></root>");
    match read_simple_tag(&mut reader, &root) {
        Err(XmlReadError::UnexpectedElementReadError { error, element }) => {
            assert_eq!(element, "root");
            assert!(error.starts_with("Got unexpected element StartElement(child, "));
        }
        other => panic!("unexpected result {other:?}"),
    }
}

#[test]
fn empty_simple_tag_is_rejected() {
    let (mut reader, root) = reader_inside_root("<root></root>");
    assert_eq!(
        read_simple_tag(&mut reader, &root),
        Err(XmlReadError::UnexpectedElementReadError {
            error: "Got unexpected element EndElement(root)".to_string(),
            element: "root".to_string(),
        })
    );
}

#[test]
fn simple_tag_with_two_runs_of_text_is_rejected() {
    let (mut reader, root) = reader_inside_root("<root>a<![CDATA[b]]></root>");
    assert_eq!(
        read_simple_tag(&mut reader, &root),
        Err(XmlReadError::UnexpectedElementReadError {
            error: "Got unexpected element CData(b)".to_string(),
            element: "root".to_string(),
        })
    );
}

#[test]
fn list_members_are_read_in_order() {
    let (mut reader, root) = reader_inside_root("<list><n>1</n><n>2</n><n>3</n></list>");
    assert_eq!(
        read_list_tag(&mut reader, &root, "n", &ElementType::Unsigned),
        Ok(vec![Value::Unsigned(1), Value::Unsigned(2), Value::Unsigned(3)])
    );
    assert_eq!(reader.next().unwrap().kind, XmlEventKind::EndDocument);
}

#[test]
fn empty_list_is_read_as_no_members() {
    let (mut reader, root) = reader_inside_root("<list/>");
    assert_eq!(read_list_tag(&mut reader, &root, "n", &ElementType::Unsigned), Ok(vec![]));
}

#[test]
fn text_in_a_list_is_rejected() {
    let (mut reader, root) = reader_inside_root("<list>text</list>");
    assert_eq!(
        read_list_tag(&mut reader, &root, "n", &ElementType::Unsigned),
        Err(XmlReadError::UnexpectedElementReadError {
            error: "Got unexpected element Characters(text), expected one of: n".to_string(),
            element: "list".to_string(),
        })
    );
}

#[test]
fn failure_in_a_member_is_passed_on_unchanged() {
    let (mut reader, root) = reader_inside_root("<list><n>1</n><n>x</n></list>");
    assert_eq!(
        read_list_tag(&mut reader, &root, "n", &ElementType::Unsigned),
        Err(XmlReadError::InvalidParseError {
            value: "x".to_string(),
            data_type: "xs:integer".to_string(),
            element: "n".to_string(),
        })
    );
}

#[test]
fn reader_failure_in_a_list_names_the_local_name() {
    let (mut reader, root) = reader_inside_root("<p:list xmlns:p=\"urn:x\"><p:n>1</p:n><<");
    match read_list_tag(&mut reader, &root, "n", &ElementType::Unsigned) {
        Err(XmlReadError::ElementReadError { element, .. }) => assert_eq!(element, "list"),
        other => panic!("unexpected result {other:?}"),
    }
}

#[test]
fn reader_failure_in_a_record_names_the_full_name() {
    let (mut reader, root) = reader_inside_root("<p:rec xmlns:p=\"urn:x\"><<");
    let fields = vec![Field::new("n", None, ElementType::Unsigned)];
    match read_record(&fields, &mut reader, &root) {
        Err(XmlReadError::ElementReadError { element, .. }) => {
            assert_eq!(element, "{urn:x}p:rec")
        }
        other => panic!("unexpected result {other:?}"),
    }
}

#[test]
fn record_is_read_with_nested_parts() {
    let (mut reader, root) = reader_inside_root(
        "<rec><flags><flag>1</flag><flag>false</flag></flags><name>n</name><count>3</count></rec>",
    );
    let fields = vec![
        Field::new("name", None, ElementType::Text),
        Field::new("count", None, ElementType::Unsigned),
        Field::new("flags", None, ElementType::list_of("flag", ElementType::Boolean)),
    ];
    assert_eq!(
        read_element(
            &ElementType::Record(fields),
            &mut reader,
            &root,
            &vec![],
            &Namespace { bindings: vec![] },
        ),
        Ok(Value::Record(vec![
            FieldValue { tag: "name".to_string(), value: Value::Text("n".to_string()) },
            FieldValue { tag: "count".to_string(), value: Value::Unsigned(3) },
            FieldValue {
                tag: "flags".to_string(),
                value: Value::List {
                    item_tag: "flag".to_string(),
                    items: vec![Value::Boolean(true), Value::Boolean(false)],
                },
            },
        ]))
    );
}

#[test]
fn closing_tag_of_another_element_is_rejected_in_a_record() {
    let fields = vec![Field::new("n", None, ElementType::Unsigned)];
    let mut reader = EventReader::new(b"<a><b></b></a>".to_vec());
    reader.next().unwrap();
    reader.next().unwrap();
    reader.next().unwrap();
    assert_eq!(
        read_record(&fields, &mut reader, &ElementName::local("a")),
        Err(XmlReadError::UnexpectedElementReadError {
            error: "Got unexpected element EndElement(b)".to_string(),
            element: "a".to_string(),
        })
    );
}

#[test]
fn record_without_fields_reads_an_empty_element() {
    let (mut reader, root) = reader_inside_root("<rec/>");
    assert_eq!(read_record(&vec![], &mut reader, &root), Ok(Value::Record(vec![])));
}

#[test]
fn first_field_with_the_tag_is_found() {
    let fields = vec![
        Field::new("a", None, ElementType::Text),
        Field::new("b", None, ElementType::Text),
        Field::new("a", None, ElementType::Boolean),
    ];
    assert_eq!(find_field(&fields, &"a".to_string()), Some(0));
    assert_eq!(find_field(&fields, &"b".to_string()), Some(1));
    assert_eq!(find_field(&fields, &"c".to_string()), None);
    assert_eq!(find_field(&vec![], &"a".to_string()), None);
}

#[test]
fn text_of_character_data_and_cdata_is_taken() {
    assert_eq!(
        inner_text_or_error("e", event(XmlEventKind::Characters("a".to_string()), "Characters(a)")),
        Ok("a".to_string())
    );
    assert_eq!(
        inner_text_or_error("e", event(XmlEventKind::CData("b".to_string()), "CData(b)")),
        Ok("b".to_string())
    );
    assert_eq!(
        inner_text_or_error("e", event(XmlEventKind::EndDocument, "EndDocument")),
        Err(XmlReadError::UnexpectedElementReadError {
            error: "Got unexpected element EndDocument".to_string(),
            element: "e".to_string(),
        })
    );
}

#[test]
fn closing_tag_must_repeat_the_whole_name() {
    let element = ElementName {
        local_name: "e".to_string(),
        namespace: Some("urn:x".to_string()),
        prefix: Some("p".to_string()),
    };
    let same = event(XmlEventKind::EndElement { name: element.duplicate() }, "EndElement(e)");
    assert_eq!(closing_tag_or_error(&element, same), Ok(()));
    let bare = event(XmlEventKind::EndElement { name: ElementName::local("e") }, "EndElement(e)");
    assert_eq!(
        closing_tag_or_error(&element, bare),
        Err(XmlReadError::UnexpectedElementReadError {
            error: "Got unexpected element EndElement(e)".to_string(),
            element: "{urn:x}p:e".to_string(),
        })
    );
    let opening = event(XmlEventKind::StartElement { name: element.duplicate() }, "StartElement(e)");
    assert!(closing_tag_or_error(&element, opening).is_err());
}

#[test]
fn unexpected_element_is_described() {
    assert_eq!(
        unexpected_element_error("e", event(XmlEventKind::Other, "Comment(x)")),
        XmlReadError::UnexpectedElementReadError {
            error: "Got unexpected element Comment(x)".to_string(),
            element: "e".to_string(),
        }
    );
}

#[test]
fn unexpected_element_lists_the_valid_names() {
    let valid = vec!["a".to_string(), "b".to_string(), "c".to_string()];
    assert_eq!(
        unexpected_element_with_known_values_error("e", valid, event(XmlEventKind::Other, "X")),
        XmlReadError::UnexpectedElementReadError {
            error: "Got unexpected element X, expected one of: a, b, c".to_string(),
            element: "e".to_string(),
        }
    );
    assert_eq!(
        unexpected_element_with_known_values_error("e", vec![], event(XmlEventKind::Other, "X")),
        XmlReadError::UnexpectedElementReadError {
            error: "Got unexpected element X, expected one of: ".to_string(),
            element: "e".to_string(),
        }
    );
}

#[test]
fn reader_failure_is_wrapped_with_the_element() {
    let mut raw = xml::reader::EventReader::new(&b"<a><"[..]);
    let failure = loop {
        match raw.next() {
            Ok(_) => {}
            Err(error) => break error,
        }
    };
    assert_eq!(
        to_xml_read_error("a", failure.clone()),
        XmlReadError::ElementReadError { error: failure, element: "a".to_string() }
    );
}

#[test]
fn writer_failure_is_wrapped_with_the_element() {
    let failure = EventSink::new(false).end_element().unwrap_err();
    match to_xml_write_error("a", failure) {
        XmlWriteError::XmlElementWriteError { element, error } => {
            assert_eq!(element, "a");
            assert!(matches!(error, xml::writer::Error::LastElementNameNotAvailable));
        }
        other => panic!("unexpected error {other:?}"),
    }
}

#[test]
fn simple_tag_is_written_as_three_events() {
    let mut writer = EventSink::new(false);
    write_simple_tag(&mut writer, "tag", "content").unwrap();
    assert_eq!(written(writer), "<?xml version=\"1.0\" encoding=\"UTF-8\"?><tag>content</tag>");
}

#[test]
fn values_are_written_under_their_tags() {
    let value = Value::Record(vec![
        FieldValue { tag: "name".to_string(), value: Value::Text("n".to_string()) },
        FieldValue { tag: "on".to_string(), value: Value::Boolean(false) },
        FieldValue {
            tag: "counts".to_string(),
            value: Value::List {
                item_tag: "count".to_string(),
                items: vec![Value::Unsigned(0), Value::Unsigned(4294967295)],
            },
        },
        FieldValue { tag: "inner".to_string(), value: Value::Record(vec![]) },
    ]);
    let mut writer = EventSink::new(false);
    write_element(&value, &mut writer, "rec").unwrap();
    assert_eq!(
        written(writer),
        "<?xml version=\"1.0\" encoding=\"UTF-8\"?><rec><name>n</name><on>false</on><counts><count>0</count><count>4294967295</count></counts><inner /></rec>"
    );
}

#[test]
fn values_will_write_unless_they_are_lists_of_nothing() {
    assert!(Value::Text(String::new()).will_write());
    assert!(Value::Boolean(false).will_write());
    assert!(Value::Unsigned(0).will_write());
    assert!(Value::Record(vec![]).will_write());
    let empty = |tag: &str| Value::List { item_tag: tag.to_string(), items: vec![] };
    assert!(!empty("a").will_write());
    assert!(!Value::List { item_tag: "a".to_string(), items: vec![empty("b"), empty("b")] }
        .will_write());
    assert!(Value::List {
        item_tag: "a".to_string(),
        items: vec![empty("b"), Value::Unsigned(1)],
    }
    .will_write());
}

#[test]
fn opening_tags_are_pulled_with_attributes_and_namespace() {
    let mut reader =
        EventReader::new(b"<a x=\"1\" p:y=\"2\" xmlns:p=\"urn:x\"><b/>text</a>".to_vec());
    let start = reader.next().unwrap();
    assert!(start.attributes.is_empty());
    assert!(start.namespace.bindings.is_empty());
    let opening = reader.next().unwrap();
    assert_eq!(
        opening.attributes,
        vec![
            Attribute { name: ElementName::local("x"), value: "1".to_string() },
            Attribute {
                name: ElementName {
                    local_name: "y".to_string(),
                    namespace: Some("urn:x".to_string()),
                    prefix: Some("p".to_string()),
                },
                value: "2".to_string(),
            },
        ]
    );
    let binding = |prefix: &str, uri: &str| (prefix.to_string(), uri.to_string());
    assert_eq!(
        opening.namespace.bindings,
        vec![
            binding("", ""),
            binding("p", "urn:x"),
            binding("xml", "http://www.w3.org/XML/1998/namespace"),
            binding("xmlns", "http://www.w3.org/2000/xmlns/"),
        ]
    );
    let inner = reader.next().unwrap();
    assert_eq!(inner.kind, XmlEventKind::StartElement { name: ElementName::local("b") });
    assert!(inner.attributes.is_empty());
    assert_eq!(inner.namespace, opening.namespace);
    let closing = reader.next().unwrap();
    assert_eq!(closing.kind, XmlEventKind::EndElement { name: ElementName::local("b") });
    assert!(closing.attributes.is_empty());
    assert!(closing.namespace.bindings.is_empty());
    let text = reader.next().unwrap();
    assert_eq!(text.kind, XmlEventKind::Characters("text".to_string()));
    assert!(text.attributes.is_empty());
    assert!(text.namespace.bindings.is_empty());
}

#[test]
fn attributes_do_not_disturb_reading() {
    let (mut reader, root) =
        reader_inside_root("<rec id=\"7\"><n unit=\"m\">3</n></rec>");
    let fields = vec![Field::new("n", None, ElementType::Unsigned)];
    assert_eq!(
        read_record(&fields, &mut reader, &root),
        Ok(Value::Record(vec![FieldValue { tag: "n".to_string(), value: Value::Unsigned(3) }]))
    );
}

#[test]
fn emitter_accepts_every_value() {
    let value = Value::Record(vec![
        FieldValue { tag: "name".to_string(), value: Value::Text(String::new()) },
        FieldValue {
            tag: "items".to_string(),
            value: Value::List { item_tag: "item".to_string(), items: vec![] },
        },
    ]);
    let mut writer = EventSink::new(false);
    assert!(write_element(&value, &mut writer, "rec").is_ok());
    assert!(write_simple_tag(&mut writer, "tag", "content").is_ok());
    assert_eq!(
        written(writer),
        "<?xml version=\"1.0\" encoding=\"UTF-8\"?><rec><name></name><items /></rec><tag>content</tag>"
    );
}

#[test]
fn closing_tag_is_accepted_exactly_when_an_element_is_open() {
    let mut writer = EventSink::new(false);
    assert!(writer.end_element().is_err());
    assert!(writer.start_element("a").is_ok());
    assert!(writer.characters("text").is_ok());
    assert!(writer.start_element("b").is_ok());
    assert!(writer.end_element().is_ok());
    assert!(writer.end_element().is_ok());
    assert!(writer.end_element().is_err());
    assert!(writer.characters("").is_ok());
    assert!(writer.end_element().is_err());
    assert_eq!(written(writer), "<?xml version=\"1.0\" encoding=\"UTF-8\"?><a>text<b /></a>");
}

#[test]
fn refused_closing_tag_leaves_the_text_as_it_was() {
    let mut refused = EventSink::new(true);
    refused.start_element("a").unwrap();
    refused.end_element().unwrap();
    assert!(refused.end_element().is_err());
    let mut plain = EventSink::new(true);
    plain.start_element("a").unwrap();
    plain.end_element().unwrap();
    assert_eq!(written(refused), written(plain));
}

#[test]
fn indentation_is_chosen_when_the_emitter_is_made() {
    let events = |writer: &mut EventSink| {
        writer.start_element("a").unwrap();
        writer.start_element("b").unwrap();
        writer.characters("t").unwrap();
        writer.end_element().unwrap();
        writer.end_element().unwrap();
    };
    let mut compact = EventSink::new(false);
    events(&mut compact);
    assert_eq!(written(compact), "<?xml version=\"1.0\" encoding=\"UTF-8\"?><a><b>t</b></a>");
    let mut indented = EventSink::new(true);
    events(&mut indented);
    assert_eq!(
        written(indented),
        "<?xml version=\"1.0\" encoding=\"UTF-8\"?>\n<a>\n  <b>t</b>\n</a>"
    );
}
