//! The capabilities that readers and writers are made of: a value knows
//! how it is written, and a shape knows how its values are read.

use vstd::prelude::*;

use crate::codec::{boolean_str, boolean_text, decimal, format_decimal};
use crate::document::read_document;
use crate::element::{read_element, write_element};
use crate::errors::{XmlReadError, XmlWriteError};
use crate::event::{
    attributes_view, Attribute, AttributeView, ElementName, ElementNameView, Namespace,
};
use crate::grammar;
use crate::grammar::value_outcome;
use crate::layout::{
    broke_off, element_events, lemma_broke_off_at_end, lemma_broke_off_in_child,
    lemma_element_depth, simple_tag_events, writes_content,
};
use crate::reader::{pending, EventReader, Pulled};
use crate::schema::{ElementType, RecordSchema, Value};
use crate::writer::{
    indents, lemma_depth_push, open_depth, written, EventSink, WriteEvent,
};
use crate::xml_utils::{to_xml_write_error, write_simple_tag};

verus! {

/// A value that can be written as a whole document.
pub trait ToXmlDocument {
    /// The events that the document consists of. An implementation that is
    /// to be verified says what they are.
    open spec fn document_events(&self) -> Seq<WriteEvent> {
        arbitrary()
    }

    /// The tag of the element that pushes the event at the place `at` among
    /// the events of the document.
    open spec fn document_owner(&self, at: int) -> Seq<char> {
        arbitrary()
    }

    /// Whether the emitter is sure to accept the whole document. Unless an
    /// implementation says so, it is not.
    open spec fn document_accepted(&self) -> bool {
        false
    }

    /// Writes the document. The first event that the writer refuses ends
    /// the writing: it is reported with the tag of the element that pushed
    /// it, and no event is pushed after it.
    fn to_xml_document(&self, writer: &mut EventSink) -> (result: Result<
        (),
        XmlWriteError,
    >)
        ensures
            indents(*final(writer)) == indents(*old(writer)),
            self.document_accepted() ==> result is Ok,
            match result {
                Ok(_) => written(*final(writer)) == written(*old(writer))
                    + self.document_events(),
                Err(error) => broke_off(
                    written(*old(writer)),
                    written(*final(writer)),
                    self.document_events(),
                ) && error.element() == self.document_owner(
                    written(*final(writer)).len() - written(*old(writer)).len(),
                ),
            },
    ;
}

/// A value that can be written as one element under a tag that its
/// container chooses.
pub trait ToXmlElement {
    /// The events that the value is written as under `tag`. An
    /// implementation that is to be verified says what they are.
    open spec fn xml_events(&self, tag: Seq<char>) -> Seq<WriteEvent> {
        arbitrary()
    }

    /// The tag of the element that pushes the event at the place `at` among
    /// the events of the value written under `tag`.
    open spec fn xml_owner(&self, tag: Seq<char>, at: int) -> Seq<char> {
        arbitrary()
    }

    /// Whether the emitter is sure to accept all events of the value.
    /// Unless an implementation says so, it is not.
    open spec fn xml_accepted(&self) -> bool {
        false
    }

    /// Whether the value has anything to write. Unless an implementation
    /// says otherwise, every value has.
    open spec fn has_content(&self) -> bool {
        true
    }

    /// Writes the value as one element under `tag`, which is closed when the
    /// writing is done. The first event that the writer refuses ends the
    /// writing: it is reported with the tag of the element that pushed it,
    /// and no event is pushed after it.
    fn to_xml_element(&self, writer: &mut EventSink, tag: &str) -> (result:
        Result<(), XmlWriteError>)
        ensures
            indents(*final(writer)) == indents(*old(writer)),
            self.xml_accepted() ==> result is Ok,
            result is Ok ==> open_depth(written(*final(writer))) == open_depth(
                written(*old(writer)),
            ),
            match result {
                Ok(_) => written(*final(writer)) == written(*old(writer)) + self.xml_events(tag@),
                Err(error) => broke_off(
                    written(*old(writer)),
                    written(*final(writer)),
                    self.xml_events(tag@),
                ) && error.element() == self.xml_owner(
                    tag@,
                    written(*final(writer)).len() - written(*old(writer)).len(),
                ),
            },
    ;

    /// Whether the value has anything to write, so that a container may
    /// leave out what has not.
    fn will_write(&self) -> (result: bool)
        ensures
            result == self.has_content(),
    ;
}

/// A type whose elements carry a fixed tag of their own, as the members of
/// a list must.
pub trait NamedXmlElement {
    /// The tag, as a mathematical value. An implementation that is to be
    /// verified says what it is.
    open spec fn element_name() -> Seq<char> {
        arbitrary()
    }

    /// The tag under which each member of a list of `Self` is written.
    fn xml_element_name() -> (name: &'static str)
        ensures
            name@ == Self::element_name(),
    ;
}

/// A shape whose documents can be read.
pub trait FromXmlDocument {
    /// What reading yields.
    type Output;

    /// Whether reading a document, the tokenizer being about to yield
    /// `events`, ends in `result`. An implementation that is to be verified
    /// says when.
    open spec fn document_outcome(
        &self,
        events: Seq<Pulled>,
        result: Result<Self::Output, XmlReadError>,
    ) -> bool {
        arbitrary()
    }

    /// Reads a whole document of this shape.
    fn from_xml_document(&self, reader: &mut EventReader) -> (result: Result<
        Self::Output,
        XmlReadError,
    >)
        ensures
            self.document_outcome(pending(*old(reader)), result),
    ;
}

/// A shape whose elements can be read.
pub trait FromXmlElement {
    /// What reading yields.
    type Output;

    /// Whether reading an element after its opening tag, which has the
    /// name `name`, the attributes `attributes` and the namespace bindings
    /// `namespace`, the tokenizer being about to yield `events`, ends in
    /// `result`, and on success leaves `rest` to be yielded. An
    /// implementation that is to be verified says when.
    open spec fn element_outcome(
        &self,
        events: Seq<Pulled>,
        name: ElementNameView,
        attributes: Seq<AttributeView>,
        namespace: Seq<(Seq<char>, Seq<char>)>,
        result: Result<Self::Output, XmlReadError>,
        rest: Seq<Pulled>,
    ) -> bool {
        arbitrary()
    }

    /// Reads an element of this shape, after its opening tag, through its
    /// closing tag. The name, the attributes and the namespace bindings of
    /// the opening tag are handed over.
    fn from_xml_element(
        &self,
        reader: &mut EventReader,
        element_name: &ElementName,
        element_attributes: &Vec<Attribute>,
        element_namespace: &Namespace,
    ) -> (result: Result<Self::Output, XmlReadError>)
        ensures
            self.element_outcome(
                pending(*old(reader)),
                element_name@,
                attributes_view(element_attributes@),
                element_namespace@,
                result,
                pending(*final(reader)),
            ),
    ;
}

impl ToXmlElement for String {
    open spec fn xml_events(&self, tag: Seq<char>) -> Seq<WriteEvent> {
        simple_tag_events(tag, self@)
    }

    open spec fn xml_accepted(&self) -> bool {
        true
    }

    fn to_xml_element(&self, writer: &mut EventSink, tag: &str) -> (result:
        Result<(), XmlWriteError>) {
        proof {
            lemma_element_depth(written(*writer), crate::schema::ValueView::Text(self@), tag@);
        }
        write_simple_tag(writer, tag, self.as_str())
    }

    fn will_write(&self) -> (result: bool) {
        true
    }
}

impl ToXmlElement for bool {
    open spec fn xml_events(&self, tag: Seq<char>) -> Seq<WriteEvent> {
        simple_tag_events(tag, boolean_text(*self))
    }

    open spec fn xml_accepted(&self) -> bool {
        true
    }

    fn to_xml_element(&self, writer: &mut EventSink, tag: &str) -> (result:
        Result<(), XmlWriteError>) {
        proof {
            lemma_element_depth(written(*writer), crate::schema::ValueView::Boolean(*self), tag@);
        }
        write_simple_tag(writer, tag, boolean_str(*self))
    }

    fn will_write(&self) -> (result: bool) {
        true
    }
}

impl ToXmlElement for u32 {
    open spec fn xml_events(&self, tag: Seq<char>) -> Seq<WriteEvent> {
        simple_tag_events(tag, decimal(*self as nat))
    }

    open spec fn xml_accepted(&self) -> bool {
        true
    }

    fn to_xml_element(&self, writer: &mut EventSink, tag: &str) -> (result:
        Result<(), XmlWriteError>) {
        proof {
            lemma_element_depth(written(*writer), crate::schema::ValueView::Unsigned(*self), tag@);
        }
        let digits = format_decimal(*self);
        write_simple_tag(writer, tag, digits.as_str())
    }

    fn will_write(&self) -> (result: bool) {
        true
    }
}

impl ToXmlElement for Value {
    open spec fn xml_events(&self, tag: Seq<char>) -> Seq<WriteEvent> {
        element_events(self@, tag)
    }

    open spec fn has_content(&self) -> bool {
        writes_content(self@)
    }

    open spec fn xml_accepted(&self) -> bool {
        true
    }

    fn to_xml_element(&self, writer: &mut EventSink, tag: &str) -> (result:
        Result<(), XmlWriteError>) {
        proof {
            lemma_element_depth(written(*writer), self@, tag@);
        }
        write_element(self, writer, tag)
    }

    fn will_write(&self) -> (result: bool) {
        Value::will_write(self)
    }
}

/// The events of the first `count` members of a list, each written under
/// `item_tag`.
pub open spec fn members_events<T: ToXmlElement>(
    items: Seq<T>,
    item_tag: Seq<char>,
    count: nat,
) -> Seq<WriteEvent>
    decreases count,
{
    if count == 0 || count > items.len() {
        Seq::empty()
    } else {
        members_events(items, item_tag, (count - 1) as nat) + items[count - 1].xml_events(
            item_tag,
        )
    }
}

/// The tag of the element that pushes the event at the place `at` among
/// the events of the members from `from` on, which the closing tag of the
/// list `tag` follows.
pub open spec fn member_event_owner<T: ToXmlElement>(
    items: Seq<T>,
    item_tag: Seq<char>,
    from: nat,
    at: int,
    tag: Seq<char>,
) -> Seq<char>
    decreases items.len() - from,
{
    if from >= items.len() {
        tag
    } else {
        let part = items[from as int].xml_events(item_tag);
        if at < part.len() {
            items[from as int].xml_owner(item_tag, at)
        } else {
            member_event_owner(items, item_tag, from + 1, at - part.len(), tag)
        }
    }
}

/// The events of the first members of a list begin the events of more of
/// its members.
pub proof fn lemma_members_events_begin<T: ToXmlElement>(
    items: Seq<T>,
    item_tag: Seq<char>,
    count: nat,
    more: nat,
)
    requires
        count <= more <= items.len(),
    ensures
        members_events(items, item_tag, count).len() <= members_events(
            items,
            item_tag,
            more,
        ).len(),
        members_events(items, item_tag, more).take(
            members_events(items, item_tag, count).len() as int,
        ) == members_events(items, item_tag, count),
    decreases more - count,
{
    if count < more {
        lemma_members_events_begin(items, item_tag, count, (more - 1) as nat);
    }
    assert(members_events(items, item_tag, more).take(
        members_events(items, item_tag, count).len() as int,
    ) =~= members_events(items, item_tag, count));
}

/// The place of an event among the events of the members after the first
/// `from`, counted from the events of the first `upto`, is a place in the
/// member `upto`, or the place of the closing tag if there is no such
/// member.
pub proof fn lemma_member_event_owner<T: ToXmlElement>(
    items: Seq<T>,
    item_tag: Seq<char>,
    from: nat,
    upto: nat,
    at: int,
    tag: Seq<char>,
)
    requires
        from <= upto <= items.len(),
        0 <= at,
        upto < items.len() ==> at < items[upto as int].xml_events(item_tag).len(),
    ensures
        members_events(items, item_tag, from).len() <= members_events(
            items,
            item_tag,
            upto,
        ).len(),
        member_event_owner(
            items,
            item_tag,
            from,
            members_events(items, item_tag, upto).len() - members_events(
                items,
                item_tag,
                from,
            ).len() + at,
            tag,
        ) == if upto < items.len() {
            items[upto as int].xml_owner(item_tag, at)
        } else {
            tag
        },
    decreases upto - from,
{
    lemma_members_events_begin(items, item_tag, from, upto);
    if from < upto {
        lemma_members_events_begin(items, item_tag, from + 1, upto);
        lemma_member_event_owner(items, item_tag, from + 1, upto, at, tag);
        assert(members_events(items, item_tag, from + 1) == members_events(items, item_tag, from)
            + items[from as int].xml_events(item_tag));
    }
}

impl<T: ToXmlElement + NamedXmlElement> ToXmlElement for Vec<T> {
    open spec fn xml_events(&self, tag: Seq<char>) -> Seq<WriteEvent> {
        seq![WriteEvent::StartElement(tag)] + members_events(
            self@,
            T::element_name(),
            self@.len(),
        ) + seq![WriteEvent::EndElement]
    }

    open spec fn xml_owner(&self, tag: Seq<char>, at: int) -> Seq<char> {
        if at <= 0 {
            tag
        } else {
            member_event_owner(self@, T::element_name(), 0, at - 1, tag)
        }
    }

    open spec fn xml_accepted(&self) -> bool {
        forall|i: int| 0 <= i < self@.len() ==> (#[trigger] self@[i]).xml_accepted()
    }

    open spec fn has_content(&self) -> bool {
        exists|i: int| 0 <= i < self@.len() && (#[trigger] self@[i]).has_content()
    }

    /// Writes the container under `tag`, and in it each member under the
    /// tag that its type names. The failure of a member is passed on as it
    /// is; the container's own closing tag, if refused, is reported with
    /// `tag`. The emitter accepts the list if it is sure to accept each
    /// member, and so the empty list.
    fn to_xml_element(&self, writer: &mut EventSink, tag: &str) -> (result:
        Result<(), XmlWriteError>) {
        let ghost before = written(*writer);
        let ghost start = seq![WriteEvent::StartElement(tag@)];
        let ghost end = seq![WriteEvent::EndElement];
        let ghost inner_tag = T::element_name();
        let ghost all = members_events(self@, inner_tag, self@.len());
        match writer.start_element(tag) {
            Ok(_) => {},
            Err(error) => {
                return Err(to_xml_write_error(tag, error));
            },
        }
        let item_tag = T::xml_element_name();
        let mut at: usize = 0;
        proof {
            lemma_depth_push(before, start[0]);
            assert(members_events(self@, inner_tag, 0) =~= Seq::<WriteEvent>::empty());
            assert(written(*writer) =~= before + start + members_events(self@, inner_tag, 0));
            assert(written(*writer) =~= before.push(start[0]));
        }
        while at < self.len()
            invariant
                at <= self@.len(),
                item_tag@ == inner_tag,
                inner_tag == T::element_name(),
                before == written(*old(writer)),
                all == members_events(self@, inner_tag, self@.len()),
                start == seq![WriteEvent::StartElement(tag@)],
                end == seq![WriteEvent::EndElement],
                indents(*writer) == indents(*old(writer)),
                written(*writer) == before + start + members_events(self@, inner_tag, at as nat),
                open_depth(written(*writer)) == open_depth(before) + 1,
            decreases self@.len() - at,
        {
            let ghost done = members_events(self@, inner_tag, at as nat);
            let ghost part = self@[at as int].xml_events(inner_tag);
            match self[at].to_xml_element(writer, item_tag) {
                Ok(_) => {},
                Err(error) => {
                    proof {
                        lemma_members_events_begin(
                            self@,
                            inner_tag,
                            (at + 1) as nat,
                            self@.len(),
                        );
                        assert(members_events(self@, inner_tag, (at + 1) as nat) == done + part);
                        lemma_broke_off_in_child(
                            before,
                            written(*writer),
                            start,
                            done,
                            part,
                            all,
                            end,
                        );
                        lemma_member_event_owner(
                            self@,
                            inner_tag,
                            0,
                            at as nat,
                            written(*writer).len() - (before + start + done).len(),
                            tag@,
                        );
                        assert(members_events(self@, inner_tag, 0).len() == 0);
                    }
                    return Err(error);
                },
            }
            assert(written(*writer) =~= before + start + members_events(
                self@,
                inner_tag,
                (at + 1) as nat,
            ));
            at += 1;
        }
        match writer.end_element() {
            Ok(_) => {},
            Err(error) => {
                proof {
                    lemma_broke_off_at_end(before, start, all, end);
                    lemma_member_event_owner(self@, inner_tag, 0, self@.len(), 0, tag@);
                    assert(members_events(self@, inner_tag, 0).len() == 0);
                }
                return Err(to_xml_write_error(tag, error));
            },
        }
        proof {
            assert(written(*writer) =~= before + self.xml_events(tag@));
            lemma_depth_push(before + start + all, end[0]);
        }
        Ok(())
    }

    /// Whether one of the members has anything to write.
    fn will_write(&self) -> (result: bool) {
        let mut at: usize = 0;
        while at < self.len()
            invariant
                at <= self@.len(),
                forall|j: int| 0 <= j < at ==> !(#[trigger] self@[j]).has_content(),
            decreases self@.len() - at,
        {
            if self[at].will_write() {
                return true;
            }
            at += 1;
        }
        false
    }
}

impl FromXmlElement for ElementType {
    type Output = Value;

    open spec fn element_outcome(
        &self,
        events: Seq<Pulled>,
        name: ElementNameView,
        attributes: Seq<AttributeView>,
        namespace: Seq<(Seq<char>, Seq<char>)>,
        result: Result<Value, XmlReadError>,
        rest: Seq<Pulled>,
    ) -> bool {
        &&& value_outcome(result) == grammar::read_element(*self, events, name).result
        &&& result is Ok ==> rest == grammar::read_element(*self, events, name).rest
    }

    fn from_xml_element(
        &self,
        reader: &mut EventReader,
        element_name: &ElementName,
        element_attributes: &Vec<Attribute>,
        element_namespace: &Namespace,
    ) -> (result: Result<Value, XmlReadError>) {
        read_element(self, reader, element_name, element_attributes, element_namespace)
    }
}

impl FromXmlDocument for RecordSchema {
    type Output = Value;

    open spec fn document_outcome(
        &self,
        events: Seq<Pulled>,
        result: Result<Value, XmlReadError>,
    ) -> bool {
        value_outcome(result) == grammar::read_document(*self, events)
    }

    fn from_xml_document(&self, reader: &mut EventReader) -> (result: Result<Value, XmlReadError>) {
        read_document(self, reader)
    }
}

} // verus!
