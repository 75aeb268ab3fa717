//! The readers and writers of whole documents: one root element that holds
//! a record.

use vstd::prelude::*;
use vstd::string::StringExecFns;

use crate::element::{read_record, write_element};
use crate::errors::{XmlReadError, XmlWriteError};
use crate::event::{ElementName, XmlEvent, XmlEventKind};
use crate::grammar;
use crate::grammar::{name_outcome, unit_outcome, value_outcome};
use crate::layout::element_events;
use crate::reader::{pending, EventReader};
use crate::schema::{RecordSchema, Value};
use crate::traits::ToXmlDocument;
use crate::writer::{EventSink, WriteEvent};
use crate::xml_utils::{to_xml_read_error, unexpected_element_error};

verus! {

/// A record value together with the tag of the root element that holds it.
#[derive(Debug, PartialEq, Eq)]
pub struct Document {
    pub tag: String,
    pub value: Value,
}

impl Document {
    /// The document of the shape `schema` that holds `value`.
    pub fn new(schema: &RecordSchema, value: Value) -> (document: Document)
        ensures
            document.tag@ == schema.tag@,
            document.value == value,
    {
        Document { tag: schema.tag.clone(), value }
    }
}

impl ToXmlDocument for Document {
    open spec fn document_events(&self) -> Seq<WriteEvent> {
        element_events(self.value@, self.tag@)
    }

    open spec fn document_accepted(&self) -> bool {
        true
    }

    /// Writes the record as the root element, under the tag of the
    /// document.
    fn to_xml_document(&self, writer: &mut EventSink) -> (result: Result<
        (),
        XmlWriteError,
    >) {
        write_element(&self.value, writer, self.tag.as_str())
    }
}

/// Accepts the start of the document; any other event is reported as out
/// of place in the root element `tag`.
pub fn expect_document_start(tag: &str, event: XmlEvent) -> (result: Result<(), XmlReadError>)
    ensures
        unit_outcome(result) == grammar::document_start(tag@, event@),
{
    match event.kind {
        XmlEventKind::StartDocument => Ok(()),
        kind => Err(unexpected_element_error(tag, XmlEvent { kind, attributes: event.attributes, namespace: event.namespace, shown: event.shown })),
    }
}

/// Accepts the opening tag of the root element, whose local name must be
/// `tag`, and yields its name; any other event is reported as out of place
/// in the root element.
pub fn expect_document_root(tag: &str, event: XmlEvent) -> (result: Result<
    ElementName,
    XmlReadError,
>)
    ensures
        name_outcome(result) == grammar::document_root(tag@, event@),
{
    match event.kind {
        XmlEventKind::StartElement { name } => {
            if name.local_name == String::from_str(tag) {
                Ok(name)
            } else {
                Err(
                    unexpected_element_error(
                        tag,
                        XmlEvent { kind: XmlEventKind::StartElement { name }, attributes: event.attributes, namespace: event.namespace, shown: event.shown },
                    ),
                )
            }
        },
        kind => Err(unexpected_element_error(tag, XmlEvent { kind, attributes: event.attributes, namespace: event.namespace, shown: event.shown })),
    }
}

/// Accepts the end of the document; any other event is reported as out of
/// place in the root element `tag`.
pub fn expect_document_end(tag: &str, event: XmlEvent) -> (result: Result<(), XmlReadError>)
    ensures
        unit_outcome(result) == grammar::document_end(tag@, event@),
{
    match event.kind {
        XmlEventKind::EndDocument => Ok(()),
        kind => Err(unexpected_element_error(tag, XmlEvent { kind, attributes: event.attributes, namespace: event.namespace, shown: event.shown })),
    }
}

/// Reads a whole document of the shape `schema`: the start of the document,
/// the root element under the schema's tag with its record, and the end of
/// the document. What follows the end of the document is not looked at.
pub fn read_document(schema: &RecordSchema, reader: &mut EventReader) -> (result: Result<
    Value,
    XmlReadError,
>)
    ensures
        value_outcome(result) == grammar::read_document(*schema, pending(*old(reader))),
{
    let tag = schema.tag.as_str();
    let opening = match reader.next() {
        Ok(event) => event,
        Err(error) => {
            return Err(to_xml_read_error(tag, error));
        },
    };
    match expect_document_start(tag, opening) {
        Ok(_) => {},
        Err(error) => {
            return Err(error);
        },
    }
    let root = match reader.next() {
        Ok(event) => event,
        Err(error) => {
            return Err(to_xml_read_error(tag, error));
        },
    };
    let name = match expect_document_root(tag, root) {
        Ok(name) => name,
        Err(error) => {
            return Err(error);
        },
    };
    let value = match read_record(&schema.fields, reader, &name) {
        Ok(value) => value,
        Err(error) => {
            return Err(error);
        },
    };
    let ending = match reader.next() {
        Ok(event) => event,
        Err(error) => {
            return Err(to_xml_read_error(tag, error));
        },
    };
    match expect_document_end(tag, ending) {
        Ok(_) => Ok(value),
        Err(error) => Err(error),
    }
}

} // verus!
