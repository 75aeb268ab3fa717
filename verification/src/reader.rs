//! The pull source of events: a tokenizer over the bytes of a document.

use vstd::prelude::*;
use xml::reader::XmlEvent as RawEvent;

use crate::event::{
    attributes_view, Attribute, ElementName, Namespace, XmlEvent, XmlEventKind, XmlEventView,
};

verus! {

/// What one pull yields: an event, or the tokenizer's failure.
pub type Pulled = Result<XmlEventView, xml::reader::Error>;

/// A tokenizer positioned somewhere in a document held in memory: the
/// `EventReader` of the `xml` crate over a cursor on the bytes, and the event
/// that it yielded last. Leading and trailing whitespace of character data
/// is trimmed, and character data that is whitespace only is not reported.
#[verifier::external_body]
pub struct EventReader {
    inner: xml::reader::EventReader<std::io::Cursor<Vec<u8>>>,
    held: RawEvent,
}

/// The results that a fresh tokenizer yields on the document `bytes`, pull
/// after pull, up to and including the first that is a failure or the end of
/// the document.
pub uninterp spec fn parsed_events(bytes: Seq<u8>) -> Seq<Pulled>;

/// The results that `reader` has yet to yield, up to and including the first
/// that is a failure or the end of the document.
pub uninterp spec fn pending(reader: EventReader) -> Seq<Pulled>;

/// The mathematical value of what a pull returned.
pub open spec fn pulled(result: Result<XmlEvent, xml::reader::Error>) -> Pulled {
    match result {
        Ok(event) => Ok(event@),
        Err(error) => Err(error),
    }
}

/// Whether nothing new follows `result`: it is a failure or the end of the
/// document.
pub open spec fn is_last(result: Pulled) -> bool {
    match result {
        Ok(event) => event.kind is EndDocument,
        Err(_) => true,
    }
}

/// The event that `reader` yielded last.
pub uninterp spec fn held(reader: EventReader) -> XmlEventView;

/// `xml::reader::EventReader::new_with_config` over a cursor on `bytes`,
/// with `trim_whitespace` set: the new tokenizer is about to yield what a
/// fresh tokenizer yields on these bytes.
#[verifier::external_body]
fn open_reader(bytes: Vec<u8>) -> (reader: EventReader)
    ensures
        pending(reader) == parsed_events(bytes@),
{
    let config = xml::reader::ParserConfig::new().trim_whitespace(true);
    let inner = xml::reader::EventReader::new_with_config(std::io::Cursor::new(bytes), config);
    EventReader { inner, held: RawEvent::EndDocument }
}

/// `xml::reader::EventReader::next`: takes the first pending result; an
/// event is held, a failure is returned. Unless that result was a failure or
/// the end of the document, the others stay pending.
#[verifier::external_body]
fn pull(reader: &mut EventReader) -> (result: Result<(), xml::reader::Error>)
    ensures
        pending(*old(reader)).len() > 0,
        match result {
            Ok(_) => pending(*old(reader))[0] == Ok::<XmlEventView, xml::reader::Error>(
                held(*final(reader)),
            ),
            Err(error) => pending(*old(reader))[0] == Err::<XmlEventView, xml::reader::Error>(
                error,
            ),
        },
        !is_last(pending(*old(reader))[0]) ==> pending(*final(reader)) == pending(
            *old(reader),
        ).skip(1),
{
    reader.held = reader.inner.next()?;
    Ok(())
}

/// What the held `xml::reader::XmlEvent` is, with the names and text that
/// it carries, and its `Debug` text.
#[verifier::external_body]
fn held_event(reader: &EventReader) -> (event: (XmlEventKind, String))
    ensures
        event.0@ == held(*reader).kind,
        event.1@ == held(*reader).shown,
{
    let raw = reader.held.clone();
    let shown = format!("{:?}", raw);
    let kind = match raw {
        RawEvent::StartDocument { .. } => XmlEventKind::StartDocument,
        RawEvent::EndDocument => XmlEventKind::EndDocument,
        RawEvent::StartElement { name: n, .. } => XmlEventKind::StartElement { name: ElementName { local_name: n.local_name, namespace: n.namespace, prefix: n.prefix } },
        RawEvent::EndElement { name: n } => XmlEventKind::EndElement { name: ElementName { local_name: n.local_name, namespace: n.namespace, prefix: n.prefix } },
        RawEvent::Characters(text) => XmlEventKind::Characters(text),
        RawEvent::CData(text) => XmlEventKind::CData(text),
        RawEvent::ProcessingInstruction { .. } => XmlEventKind::Other,
        RawEvent::Comment(_) => XmlEventKind::Other,
        RawEvent::Whitespace(_) => XmlEventKind::Other,
    };
    (kind, shown)
}

/// The attributes of the held `xml::reader::XmlEvent` where it is an
/// opening tag, in their order; any other event has none.
#[verifier::external_body]
fn held_attributes(reader: &EventReader) -> (attributes: Vec<Attribute>)
    ensures
        attributes_view(attributes@) == held(*reader).attributes,
{
    match reader.held.clone() {
        RawEvent::StartElement { attributes, .. } => attributes.into_iter().map(|a| Attribute { name: ElementName { local_name: a.name.local_name, namespace: a.name.namespace, prefix: a.name.prefix }, value: a.value }).collect(),
        RawEvent::StartDocument { .. } => Vec::new(),
        RawEvent::EndDocument => Vec::new(),
        RawEvent::EndElement { .. } => Vec::new(),
        RawEvent::Characters(_) => Vec::new(),
        RawEvent::CData(_) => Vec::new(),
        RawEvent::ProcessingInstruction { .. } => Vec::new(),
        RawEvent::Comment(_) => Vec::new(),
        RawEvent::Whitespace(_) => Vec::new(),
    }
}

/// The namespace bindings of the held `xml::reader::XmlEvent` where it is
/// an opening tag, in the order of their prefixes; any other event has none.
#[verifier::external_body]
fn held_namespace(reader: &EventReader) -> (namespace: Namespace)
    ensures
        namespace@ == held(*reader).namespace,
{
    let bindings = match reader.held.clone() {
        RawEvent::StartElement { namespace, .. } => namespace.0.into_iter().collect(),
        RawEvent::StartDocument { .. } => Vec::new(),
        RawEvent::EndDocument => Vec::new(),
        RawEvent::EndElement { .. } => Vec::new(),
        RawEvent::Characters(_) => Vec::new(),
        RawEvent::CData(_) => Vec::new(),
        RawEvent::ProcessingInstruction { .. } => Vec::new(),
        RawEvent::Comment(_) => Vec::new(),
        RawEvent::Whitespace(_) => Vec::new(),
    };
    Namespace { bindings }
}

impl EventReader {
    /// A tokenizer at the start of the document `bytes`.
    pub fn new(bytes: Vec<u8>) -> (reader: EventReader)
        ensures
            pending(reader) == parsed_events(bytes@),
    {
        open_reader(bytes)
    }

    /// Pulls the next event. After a failure or the end of the document the
    /// tokenizer has nothing new to yield.
    pub fn next(&mut self) -> (result: Result<XmlEvent, xml::reader::Error>)
        ensures
            pending(*old(self)).len() > 0,
            pulled(result) == pending(*old(self))[0],
            !is_last(pulled(result)) ==> pending(*final(self)) == pending(*old(self)).skip(1),
    {
        match pull(self) {
            Ok(_) => {
                let (kind, shown) = held_event(self);
                let attributes = held_attributes(self);
                let namespace = held_namespace(self);
                Ok(XmlEvent { kind, attributes, namespace, shown })
            },
            Err(error) => Err(error),
        }
    }
}

} // verus!
