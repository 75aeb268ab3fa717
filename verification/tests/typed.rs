use ex_em_ell::errors::XmlWriteError;
use ex_em_ell::traits::{NamedXmlElement, ToXmlDocument, ToXmlElement};
use ex_em_ell::writer::EventSink;
use ex_em_ell::xml_utils::write_simple_tag;
use ex_em_ell::{to_string, to_string_pretty};

struct Child {
    field: String,
}

impl NamedXmlElement for Child {
    fn xml_element_name() -> &'static str {
        "child"
    }
}

impl ToXmlElement for Child {
    fn to_xml_element(
        &self,
        writer: &mut EventSink,
        tag: &str,
    ) -> Result<(), XmlWriteError> {
        let wrapper = vec![self.field.clone()];
        let _ = wrapper;
        write_simple_tag(writer, tag, &self.field)
    }

    fn will_write(&self) -> bool {
        !self.field.is_empty()
    }
}

struct Example {
    children: Vec<Child>,
    enabled: bool,
    count: u32,
}

impl ToXmlDocument for Example {
    fn to_xml_document(
        &self,
        writer: &mut EventSink,
    ) -> Result<(), XmlWriteError> {
        self.children.to_xml_element(writer, "children")?;
        self.enabled.to_xml_element(writer, "enabled")?;
        self.count.to_xml_element(writer, "count")
    }
}

#[test]
fn typed_list_is_written_under_the_member_tag() {
    let children = vec![Child { field: "a".to_string() }, Child { field: "b".to_string() }];
    let mut writer = EventSink::new(false);
    children.to_xml_element(&mut writer, "children").unwrap();
    assert_eq!(
        writer.into_string(),
        "<?xml version=\"1.0\" encoding=\"UTF-8\"?><children><child>a</child><child>b</child></children>"
    );
}

#[test]
fn typed_list_will_write_if_a_member_will() {
    let none: Vec<Child> = vec![];
    assert!(!none.will_write());
    let blank = vec![Child { field: String::new() }];
    assert!(!blank.will_write());
    let some = vec![Child { field: String::new() }, Child { field: "x".to_string() }];
    assert!(some.will_write());
}

#[test]
fn primitives_always_will_write() {
    assert!("".to_string().will_write());
    assert!(false.will_write());
    assert!(0u32.will_write());
}

#[test]
fn primitives_are_written_in_their_text_form() {
    let mut writer = EventSink::new(false);
    emit(&mut writer, "root");
    true.to_xml_element(&mut writer, "yes").unwrap();
    false.to_xml_element(&mut writer, "no").unwrap();
    0u32.to_xml_element(&mut writer, "zero").unwrap();
    1234567890u32.to_xml_element(&mut writer, "big").unwrap();
    "text".to_string().to_xml_element(&mut writer, "text").unwrap();
    writer.end_element().unwrap();
    assert_eq!(
        writer.into_string(),
        "<?xml version=\"1.0\" encoding=\"UTF-8\"?><root><yes>true</yes><no>false</no><zero>0</zero><big>1234567890</big><text>text</text></root>"
    );
}

fn emit(writer: &mut EventSink, tag: &str) {
    writer.start_element(tag).unwrap();
}

#[test]
fn refused_event_is_reported_with_the_tag() {
    struct Broken;
    impl ToXmlDocument for Broken {
        fn to_xml_document(
            &self,
            writer: &mut EventSink,
        ) -> Result<(), XmlWriteError> {
            writer
                .end_element()
                .map_err(|error| ex_em_ell::xml_utils::to_xml_write_error("broken", error))
        }
    }
    match to_string(&Broken) {
        Err(XmlWriteError::XmlElementWriteError { element, .. }) => assert_eq!(element, "broken"),
        other => panic!("unexpected result {other:?}"),
    }
}

#[test]
fn typed_document_is_written_compact_and_pretty() {
    let example = Example {
        children: vec![Child { field: "a".to_string() }],
        enabled: true,
        count: 7,
    };
    let wrapped = Wrapped(example);
    assert_eq!(
        to_string(&wrapped).unwrap(),
        "<?xml version=\"1.0\" encoding=\"UTF-8\"?><example><children><child>a</child></children><enabled>true</enabled><count>7</count></example>"
    );
    assert_eq!(
        to_string_pretty(&wrapped).unwrap(),
        "<?xml version=\"1.0\" encoding=\"UTF-8\"?>\n<example>\n  <children>\n    <child>a</child>\n  </children>\n  <enabled>true</enabled>\n  <count>7</count>\n</example>"
    );
}

struct Wrapped(Example);

impl ToXmlDocument for Wrapped {
    fn to_xml_document(
        &self,
        writer: &mut EventSink,
    ) -> Result<(), XmlWriteError> {
        emit(writer, "example");
        self.0.to_xml_document(writer)?;
        writer
            .end_element()
            .map_err(|error| ex_em_ell::xml_utils::to_xml_write_error("example", error))
    }
}

#[test]
fn empty_typed_list_is_written_as_the_empty_container() {
    let children: Vec<Child> = vec![];
    let mut writer = EventSink::new(false);
    assert!(children.to_xml_element(&mut writer, "children").is_ok());
    assert_eq!(
        writer.into_string(),
        "<?xml version=\"1.0\" encoding=\"UTF-8\"?><children />"
    );
}

#[test]
fn failure_of_a_member_is_passed_on_by_the_list() {
    struct Failing;
    impl NamedXmlElement for Failing {
        fn xml_element_name() -> &'static str {
            "member"
        }
    }
    impl ToXmlElement for Failing {
        fn to_xml_element(
            &self,
            writer: &mut EventSink,
            _tag: &str,
        ) -> Result<(), XmlWriteError> {
            let mut fresh = EventSink::new(false);
            let _ = writer;
            fresh
                .end_element()
                .map_err(|error| ex_em_ell::xml_utils::to_xml_write_error("deep", error))
        }

        fn will_write(&self) -> bool {
            true
        }
    }
    let mut writer = EventSink::new(false);
    match vec![Failing, Failing].to_xml_element(&mut writer, "list") {
        Err(XmlWriteError::XmlElementWriteError { element, .. }) => assert_eq!(element, "deep"),
        other => panic!("unexpected result {other:?}"),
    }
    assert_eq!(
        writer.into_string(),
        "<?xml version=\"1.0\" encoding=\"UTF-8\"?><list"
    );
}

#[test]
fn booleans_are_accepted_by_the_writer_of_the_library() {
    let mut writer = EventSink::new(false);
    assert!(true.to_xml_element(&mut writer, "yes").is_ok());
    assert!(7u32.to_xml_element(&mut writer, "n").is_ok());
    assert!("t".to_string().to_xml_element(&mut writer, "t").is_ok());
    assert_eq!(
        writer.into_string(),
        "<?xml version=\"1.0\" encoding=\"UTF-8\"?><yes>true</yes><n>7</n><t>t</t>"
    );
}
