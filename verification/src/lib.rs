//! A mapping between records and XML documents: a record is written as an
//! element that holds one child element for each of its fields, and a
//! document is read back against the shape that the record declares.
//!
//! A shape ([`schema::RecordSchema`], [`schema::ElementType`]) lists the
//! fields of a record with their tags and types; a value ([`schema::Value`])
//! is what an element of such a shape holds. Reading pulls events from a
//! tokenizer ([`reader::EventReader`]) and writing pushes events to an
//! emitter ([`writer::EventSink`]); what both mean is said once, as functions
//! on sequences of events ([`grammar`], [`layout`]), and the readers and
//! writers are proved against it. That reading undoes writing is proved in
//! [`round_trip`], and that the children of a record may stand in any order
//! in [`order`].

pub mod codec;
pub mod document;
pub mod element;
pub mod errors;
pub mod event;
pub mod grammar;
pub mod laws;
pub mod layout;
pub mod naming;
pub mod order;
pub mod reader;
pub mod round_trip;
pub mod schema;
pub mod traits;
pub mod writer;
pub mod xml_utils;

use vstd::prelude::*;
use vstd::slice::slice_to_vec;

use crate::errors::{XmlReadError, XmlWriteError};
use crate::reader::{parsed_events, EventReader};
pub use crate::traits::{
    FromXmlDocument, FromXmlElement, NamedXmlElement, ToXmlDocument, ToXmlElement,
};
use crate::writer::{lossy_text, rendered, written, EventSink};

verus! {

/// The text of the document `value`, without indentation. The writing
/// succeeds for every document that an emitter is sure to accept, as it is
/// for [`document::Document`].
pub fn to_string<T: ToXmlDocument>(value: &T) -> (result: Result<String, XmlWriteError>)
    ensures
        value.document_accepted() ==> result is Ok,
        match result {
            Ok(text) => text@ == lossy_text(rendered(value.document_events(), false)),
            Err(error) => exists|at: int|
                0 <= at < value.document_events().len() && error.element()
                    == value.document_owner(at),
        },
{
    to_string_with_config(value, false)
}

/// The text of the document `value`, indented. The writing succeeds for
/// every document that an emitter is sure to accept, as it is for
/// [`document::Document`].
pub fn to_string_pretty<T: ToXmlDocument>(value: &T) -> (result: Result<String, XmlWriteError>)
    ensures
        value.document_accepted() ==> result is Ok,
        match result {
            Ok(text) => text@ == lossy_text(rendered(value.document_events(), true)),
            Err(error) => exists|at: int|
                0 <= at < value.document_events().len() && error.element()
                    == value.document_owner(at),
        },
{
    to_string_with_config(value, true)
}

/// The text of the document `value`, indented or not.
fn to_string_with_config<T: ToXmlDocument>(value: &T, indent: bool) -> (result: Result<
    String,
    XmlWriteError,
>)
    ensures
        value.document_accepted() ==> result is Ok,
        match result {
            Ok(text) => text@ == lossy_text(rendered(value.document_events(), indent)),
            Err(error) => exists|at: int|
                0 <= at < value.document_events().len() && error.element()
                    == value.document_owner(at),
        },
{
    let mut event_writer = EventSink::new(indent);
    match value.to_xml_document(&mut event_writer) {
        Ok(_) => {},
        Err(error) => {
            return Err(error);
        },
    }
    assert(written(event_writer) =~= value.document_events());
    Ok(event_writer.into_string())
}

/// Reads the document `reader` against the shape `shape`.
pub fn from_reader<T: FromXmlDocument>(shape: &T, reader: &[u8]) -> (result: Result<
    T::Output,
    XmlReadError,
>)
    ensures
        shape.document_outcome(parsed_events(reader@), result),
{
    let mut event_reader = EventReader::new(slice_to_vec(reader));
    shape.from_xml_document(&mut event_reader)
}

} // verus!
