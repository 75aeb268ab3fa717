//! The building blocks of the readers and writers: elements that hold text
//! only, lists, and the failures that the others report.

use vstd::prelude::*;
use vstd::string::StringExecFns;

use crate::errors::{XmlReadError, XmlWriteError};
use crate::event::{
    attributes_view, Attribute, ElementName, Namespace, XmlEvent, XmlEventKind,
};
use crate::element::read_element;
use crate::grammar;
use crate::grammar::{
    closing_tag, inner_text, joined, lemma_element_consumes, simple_tag, source_failure,
    text_outcome, unexpected_among, unit_outcome, values_outcome, ListStepView,
};
use crate::layout::simple_tag_events;
use crate::reader::{pending, EventReader};
use crate::schema::{values_view, ElementType, Value, ValueView};
use crate::writer::{indents, lemma_depth_push, written, EventSink};

verus! {

/// `itertools::Itertools::join` over the items of a vector: the items in
/// order, with `separator` between each two.
#[verifier::external_body]
fn join_texts(items: &Vec<String>, separator: &str) -> (text: String)
    ensures
        text@ == joined(items.deep_view(), separator@),
{
    itertools::Itertools::join(&mut items.iter(), separator)
}

/// Writes an element of the form `<tag>content</tag>`. The emitter accepts
/// all three events.
pub fn write_simple_tag(writer: &mut EventSink, tag: &str, content: &str) -> (result: Result<
    (),
    XmlWriteError,
>)
    ensures
        indents(*final(writer)) == indents(*old(writer)),
        result is Ok,
        written(*final(writer)) == written(*old(writer)) + simple_tag_events(tag@, content@),
{
    let ghost before = written(*writer);
    let ghost events = simple_tag_events(tag@, content@);
    proof {
        lemma_depth_push(before, events[0]);
        lemma_depth_push(before.push(events[0]), events[1]);
    }
    match writer.start_element(tag) {
        Ok(_) => {},
        Err(error) => {
            return Err(to_xml_write_error(tag, error));
        },
    }
    match writer.characters(content) {
        Ok(_) => {},
        Err(error) => {
            return Err(to_xml_write_error(tag, error));
        },
    }
    match writer.end_element() {
        Ok(_) => {},
        Err(error) => {
            return Err(to_xml_write_error(tag, error));
        },
    }
    assert(written(*writer) =~= before + events);
    Ok(())
}

/// Reads the rest of an element that holds text only, its opening tag being
/// consumed already: the text, then the closing tag of `element`.
pub fn read_simple_tag(event_reader: &mut EventReader, element: &ElementName) -> (result: Result<
    String,
    XmlReadError,
>)
    ensures
        text_outcome(result) == simple_tag(pending(*old(event_reader)), element@).result,
        result is Ok ==> pending(*final(event_reader)) == simple_tag(
            pending(*old(event_reader)),
            element@,
        ).rest,
{
    let element_display = element.to_string();
    let event = match event_reader.next() {
        Ok(event) => event,
        Err(error) => {
            return Err(to_xml_read_error(element_display.as_str(), error));
        },
    };
    let content = match inner_text_or_error(element_display.as_str(), event) {
        Ok(content) => content,
        Err(error) => {
            return Err(error);
        },
    };
    let closing = match event_reader.next() {
        Ok(closing) => closing,
        Err(error) => {
            return Err(to_xml_read_error(element_display.as_str(), error));
        },
    };
    match closing_tag_or_error(element, closing) {
        Ok(_) => {},
        Err(error) => {
            return Err(error);
        },
    }
    Ok(content)
}

/// What the scan of a list does with one event.
#[derive(Debug, PartialEq, Eq)]
pub enum ListStep {
    /// The event opens the member `name`, with the attributes and namespace
    /// bindings of its opening tag.
    Member { name: ElementName, attributes: Vec<Attribute>, namespace: Namespace },
    /// The event closes the list.
    Closed,
}

impl View for ListStep {
    type V = ListStepView;

    open spec fn view(&self) -> ListStepView {
        match self {
            ListStep::Member { name, attributes, namespace } => ListStepView::Member {
                name: name@,
                attributes: attributes_view(attributes@),
                namespace: namespace@,
            },
            ListStep::Closed => ListStepView::Closed,
        }
    }
}

/// The mathematical value of a step of the scan of a list.
pub open spec fn list_step_outcome(result: Result<ListStep, XmlReadError>) -> Result<
    ListStepView,
    crate::errors::XmlReadErrorView,
> {
    match result {
        Ok(step) => Ok(step@),
        Err(error) => Err(error@),
    }
}

/// Decides what the scan of the list `element_name` does with `event`: an
/// opening tag whose local name is `inner_element_tag` opens a member; the
/// closing tag of the list closes it; any other event is reported as out of
/// place in the list, with `inner_element_tag` as what may stand there.
pub fn list_step(element_name: &ElementName, inner_element_tag: &str, event: XmlEvent) -> (result:
    Result<ListStep, XmlReadError>)
    ensures
        list_step_outcome(result) == grammar::list_step(
            element_name@,
            inner_element_tag@,
            event@,
        ),
{
    match event.kind {
        XmlEventKind::StartElement { name } => {
            if name.local_name == String::from_str(inner_element_tag) {
                Ok(
                    ListStep::Member {
                        name,
                        attributes: event.attributes,
                        namespace: event.namespace,
                    },
                )
            } else {
                Err(
                    unexpected_in_list(
                        element_name,
                        inner_element_tag,
                        XmlEvent { kind: XmlEventKind::StartElement { name }, attributes: event.attributes, namespace: event.namespace, shown: event.shown },
                    ),
                )
            }
        },
        XmlEventKind::EndElement { name } => {
            if name.same_as(element_name) {
                Ok(ListStep::Closed)
            } else {
                Err(
                    unexpected_in_list(
                        element_name,
                        inner_element_tag,
                        XmlEvent { kind: XmlEventKind::EndElement { name }, attributes: event.attributes, namespace: event.namespace, shown: event.shown },
                    ),
                )
            }
        },
        kind => Err(
            unexpected_in_list(
                element_name,
                inner_element_tag,
                XmlEvent { kind, attributes: event.attributes, namespace: event.namespace, shown: event.shown },
            ),
        ),
    }
}

/// Reads the members of a list, the opening tag `element_name` of its
/// container being consumed already: any number of elements under the tag
/// `inner_element_tag`, each of the type `item`, then the closing tag of the
/// container. Each member is read with the name, the attributes and the
/// namespace bindings of its own opening tag.
pub fn read_list_tag(
    event_reader: &mut EventReader,
    element_name: &ElementName,
    inner_element_tag: &str,
    item: &ElementType,
) -> (result: Result<Vec<Value>, XmlReadError>)
    ensures
        values_outcome(result) == grammar::read_items(
            *item,
            pending(*old(event_reader)),
            element_name@,
            inner_element_tag@,
            Seq::empty(),
        ).result,
        result is Ok ==> pending(*final(event_reader)) == grammar::read_items(
            *item,
            pending(*old(event_reader)),
            element_name@,
            inner_element_tag@,
            Seq::empty(),
        ).rest,
    decreases pending(*old(event_reader)).len(), 0nat,
{
    let mut items: Vec<Value> = Vec::new();
    let ghost start = pending(*event_reader);
    let mut got_end_tag = false;
    assert(values_view(items@) =~= Seq::<ValueView>::empty());
    while !got_end_tag
        invariant
            pending(*event_reader).len() <= start.len(),
            start == pending(*old(event_reader)),
            !got_end_tag ==> grammar::read_items(
                *item,
                start,
                element_name@,
                inner_element_tag@,
                Seq::empty(),
            ) == grammar::read_items(
                *item,
                pending(*event_reader),
                element_name@,
                inner_element_tag@,
                values_view(items@),
            ),
            got_end_tag ==> grammar::read_items(
                *item,
                start,
                element_name@,
                inner_element_tag@,
                Seq::empty(),
            ) == (grammar::Parsed { result: Ok(values_view(items@)), rest: pending(*event_reader) }),
        decreases pending(*event_reader).len() + (if got_end_tag { 0nat } else { 1nat }),
    {
        let ghost before = pending(*event_reader);
        let ghost read = values_view(items@);
        let next_element = match event_reader.next() {
            Ok(event) => event,
            Err(error) => {
                return Err(to_xml_read_error(element_name.local_name.as_str(), error));
            },
        };
        match list_step(element_name, inner_element_tag, next_element) {
            Ok(ListStep::Member { name, attributes, namespace }) => {
                let value = match read_element(item, event_reader, &name, &attributes, &namespace) {
                    Ok(value) => value,
                    Err(error) => {
                        return Err(error);
                    },
                };
                proof {
                    lemma_element_consumes(*item, before.skip(1), name@);
                }
                items.push(value);
                assert(values_view(items@) =~= read.push(value@));
            },
            Ok(ListStep::Closed) => {
                got_end_tag = true;
            },
            Err(error) => {
                return Err(error);
            },
        }
    }
    Ok(items)
}

/// The failure that reports `unexpected` as out of place in the list
/// `element_name`, whose members stand under `inner_element_tag`.
fn unexpected_in_list(
    element_name: &ElementName,
    inner_element_tag: &str,
    unexpected: XmlEvent,
) -> (result: XmlReadError)
    ensures
        result@ == unexpected_among(
            element_name@.display(),
            seq![inner_element_tag@],
            unexpected@,
        ),
{
    let shown = element_name.to_string();
    let mut valid: Vec<String> = Vec::new();
    valid.push(String::from_str(inner_element_tag));
    assert(valid.deep_view() =~= seq![inner_element_tag@]);
    unexpected_element_with_known_values_error(shown.as_str(), valid, unexpected)
}

/// The text of `event` where it is character data or a CDATA section; any
/// other event is reported as out of place in `element_name`.
pub fn inner_text_or_error(element_name: &str, event: XmlEvent) -> (result: Result<
    String,
    XmlReadError,
>)
    ensures
        text_outcome(result) == inner_text(element_name@, event@),
{
    match event.kind {
        XmlEventKind::Characters(text) => Ok(text),
        XmlEventKind::CData(text) => Ok(text),
        kind => Err(unexpected_element_error(element_name, XmlEvent { kind, attributes: event.attributes, namespace: event.namespace, shown: event.shown })),
    }
}

/// Success where `event` is the closing tag of `element`, with the same
/// local name, namespace and prefix; any other event is reported as out of
/// place in `element`.
pub fn closing_tag_or_error(element: &ElementName, event: XmlEvent) -> (result: Result<
    (),
    XmlReadError,
>)
    ensures
        unit_outcome(result) == closing_tag(element@, event@),
{
    let closes = match &event.kind {
        XmlEventKind::EndElement { name } => name.same_as(element),
        _ => false,
    };
    if closes {
        Ok(())
    } else {
        let shown_element = element.to_string();
        Err(unexpected_element_error(shown_element.as_str(), event))
    }
}

/// The failure of the event writer while `element` was written.
pub fn to_xml_write_error(element: &str, error: xml::writer::Error) -> (result: XmlWriteError)
    ensures
        result.source() == error,
        result.element() == element@,
{
    XmlWriteError::XmlElementWriteError { error, element: String::from_str(element) }
}

/// The failure of the event reader while `element_name` was read.
pub fn to_xml_read_error(element_name: &str, error: xml::reader::Error) -> (result: XmlReadError)
    ensures
        result@ == source_failure(element_name@, error),
{
    XmlReadError::ElementReadError { error, element: String::from_str(element_name) }
}

/// The failure that reports `unexpected` as out of place in `element`.
pub fn unexpected_element_error(element: &str, unexpected: XmlEvent) -> (result: XmlReadError)
    ensures
        result@ == crate::grammar::unexpected(element@, unexpected@),
{
    let mut error = String::from_str("Got unexpected element ");
    error.append(unexpected.shown.as_str());
    XmlReadError::UnexpectedElementReadError { error, element: String::from_str(element) }
}

/// The failure that reports `unexpected` as out of place in `element`, and
/// lists the element names that may stand there.
pub fn unexpected_element_with_known_values_error(
    element: &str,
    valid_elements: Vec<String>,
    unexpected: XmlEvent,
) -> (result: XmlReadError)
    ensures
        result@ == unexpected_among(element@, valid_elements.deep_view(), unexpected@),
{
    let mut error = String::from_str("Got unexpected element ");
    error.append(unexpected.shown.as_str());
    error.append(", expected one of: ");
    let listed = join_texts(&valid_elements, ", ");
    error.append(listed.as_str());
    XmlReadError::UnexpectedElementReadError { error, element: String::from_str(element) }
}

} // verus!
