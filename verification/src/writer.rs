//! The push sink of events: an emitter that renders into memory.

use vstd::prelude::*;

verus! {

/// The emitter of the `xml` crate, carried through as it is.
#[verifier::external_type_specification]
#[verifier::external_body]
#[verifier::reject_recursive_types(W)]
pub struct ExEventWriter<W>(xml::writer::EventWriter<W>);

/// An event as the writers push it.
pub enum WriteEvent {
    /// An opening tag with the given name.
    StartElement(Seq<char>),
    /// Character data.
    Characters(Seq<char>),
    /// The closing tag of the innermost open element.
    EndElement,
}

/// An emitter that renders into a buffer in memory. It is made on an empty
/// buffer, with the default configuration of the `xml` crate but for the
/// indentation, and events reach it through its own methods only: opening
/// tags without attributes, character data, and closing tags that name no
/// element.
pub struct EventSink {
    inner: xml::writer::EventWriter<Vec<u8>>,
}

/// The events that `writer` has accepted so far, in order.
pub uninterp spec fn written(writer: EventSink) -> Seq<WriteEvent>;

/// Whether `writer` was made to indent its output.
pub uninterp spec fn indents(writer: EventSink) -> bool;

/// The bytes that an emitter holds after it accepted `events`, with or
/// without indentation.
pub uninterp spec fn rendered(events: Seq<WriteEvent>, indent: bool) -> Seq<u8>;

/// The text that `String::from_utf8_lossy` makes of `bytes`.
pub uninterp spec fn lossy_text(bytes: Seq<u8>) -> Seq<char>;

/// The number of elements that are open after `events`: each opening tag
/// opens one, and each closing tag closes one if one is open.
pub open spec fn open_depth(events: Seq<WriteEvent>) -> nat
    decreases events.len(),
{
    if events.len() == 0 {
        0
    } else {
        let before = open_depth(events.drop_last());
        match events.last() {
            WriteEvent::StartElement(_) => before + 1,
            WriteEvent::Characters(_) => before,
            WriteEvent::EndElement => if before > 0 {
                (before - 1) as nat
            } else {
                0
            },
        }
    }
}

/// `xml::writer::EventWriter::new_with_config` on an empty buffer, with the
/// default configuration and `perform_indent` as given: nothing is written
/// yet.
#[verifier::external_body]
fn new_writer(indent: bool) -> (writer: EventSink)
    ensures
        written(writer) == Seq::<WriteEvent>::empty(),
        indents(writer) == indent,
{
    let config = xml::writer::EmitterConfig::default().perform_indent(indent);
    EventSink { inner: xml::writer::EventWriter::new_with_config(Vec::new(), config) }
}

/// `xml::writer::EventWriter::write` with a start-element event for `tag`.
/// On a buffer in memory the emitter never refuses it: the event is the last
/// one accepted.
#[verifier::external_body]
fn emit_start(writer: &mut EventSink, tag: &str) -> (result: Result<(), xml::writer::Error>)
    ensures
        indents(*final(writer)) == indents(*old(writer)),
        result is Ok,
        written(*final(writer)) == written(*old(writer)).push(WriteEvent::StartElement(tag@)),
{
    writer.inner.write(xml::writer::XmlEvent::start_element(tag))
}

/// `xml::writer::EventWriter::write` with a characters event for `content`.
/// On a buffer in memory the emitter never refuses it: the event is the last
/// one accepted.
#[verifier::external_body]
fn emit_characters(writer: &mut EventSink, content: &str) -> (result: Result<
    (),
    xml::writer::Error,
>)
    ensures
        indents(*final(writer)) == indents(*old(writer)),
        result is Ok,
        written(*final(writer)) == written(*old(writer)).push(WriteEvent::Characters(content@)),
{
    writer.inner.write(xml::writer::XmlEvent::characters(content))
}

/// `xml::writer::EventWriter::write` with an end-element event that names
/// no element. The emitter keeps the names of the elements that are open,
/// and accepts the event exactly when one is open. Where it succeeds, the
/// event is the last one accepted; where it fails, none is accepted.
#[verifier::external_body]
fn emit_end(writer: &mut EventSink) -> (result: Result<(), xml::writer::Error>)
    ensures
        indents(*final(writer)) == indents(*old(writer)),
        result is Ok <==> open_depth(written(*old(writer))) > 0,
        result is Ok ==> written(*final(writer)) == written(*old(writer)).push(
            WriteEvent::EndElement,
        ),
        result is Err ==> written(*final(writer)) == written(*old(writer)),
{
    writer.inner.write(xml::writer::XmlEvent::end_element())
}

/// `xml::writer::EventWriter::into_inner`: the buffer holds the rendering of
/// the events that were accepted.
#[verifier::external_body]
fn into_bytes(writer: EventSink) -> (bytes: Vec<u8>)
    ensures
        bytes@ == rendered(written(writer), indents(writer)),
{
    writer.inner.into_inner()
}

/// `String::from_utf8_lossy`, as an owned string: the text is what that
/// function makes of the bytes.
#[verifier::external_body]
fn text_of(bytes: &Vec<u8>) -> (text: String)
    ensures
        text@ == lossy_text(bytes@),
{
    String::from_utf8_lossy(bytes).into_owned()
}

impl EventSink {
    /// An emitter that has accepted nothing yet, indenting or not.
    pub fn new(indent: bool) -> (writer: EventSink)
        ensures
            written(writer) == Seq::<WriteEvent>::empty(),
            indents(writer) == indent,
    {
        new_writer(indent)
    }

    /// Pushes the opening tag of an element named `tag`. The emitter always
    /// accepts it.
    pub fn start_element(&mut self, tag: &str) -> (result: Result<(), xml::writer::Error>)
        ensures
            indents(*final(self)) == indents(*old(self)),
            result is Ok,
            written(*final(self)) == written(*old(self)).push(WriteEvent::StartElement(tag@)),
    {
        emit_start(self, tag)
    }

    /// Pushes character data. The emitter always accepts it.
    pub fn characters(&mut self, content: &str) -> (result: Result<(), xml::writer::Error>)
        ensures
            indents(*final(self)) == indents(*old(self)),
            result is Ok,
            written(*final(self)) == written(*old(self)).push(WriteEvent::Characters(content@)),
    {
        emit_characters(self, content)
    }

    /// Pushes the closing tag of the innermost open element. The emitter
    /// accepts it exactly when an element is open; a refused tag leaves
    /// what was accepted as it was.
    pub fn end_element(&mut self) -> (result: Result<(), xml::writer::Error>)
        ensures
            indents(*final(self)) == indents(*old(self)),
            result is Ok <==> open_depth(written(*old(self))) > 0,
            result is Ok ==> written(*final(self)) == written(*old(self)).push(
                WriteEvent::EndElement,
            ),
            result is Err ==> written(*final(self)) == written(*old(self)),
    {
        emit_end(self)
    }

    /// The text that the emitter has rendered.
    pub fn into_string(self) -> (text: String)
        ensures
            text@ == lossy_text(rendered(written(self), indents(self))),
    {
        let bytes = into_bytes(self);
        text_of(&bytes)
    }
}

/// Pushing one event changes the number of open elements by that event
/// alone.
pub proof fn lemma_depth_push(events: Seq<WriteEvent>, event: WriteEvent)
    ensures
        open_depth(events.push(event)) == match event {
            WriteEvent::StartElement(_) => open_depth(events) + 1,
            WriteEvent::Characters(_) => open_depth(events),
            WriteEvent::EndElement => if open_depth(events) > 0 {
                (open_depth(events) - 1) as nat
            } else {
                0
            },
        },
{
    assert(events.push(event).drop_last() =~= events);
}

} // verus!
