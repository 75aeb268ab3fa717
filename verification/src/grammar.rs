//! What reading means: the grammar of elements as functions on the sequence
//! of results that the tokenizer has yet to yield.

use vstd::prelude::*;

use crate::codec::{boolean_of, invalid_parse, unsigned_of};
use crate::errors::{XmlReadError, XmlReadErrorView};
use crate::event::{AttributeView, ElementNameView, XmlEventKindView, XmlEventView};
use crate::reader::Pulled;
use crate::schema::{
    field_index, ElementType, Field, FieldValueView, RecordSchema, Value, ValueView,
};

verus! {

/// The outcome of reading one construct: the value or the failure, and on
/// success the results that stay pending after it.
pub struct Parsed<T> {
    pub result: Result<T, XmlReadErrorView>,
    pub rest: Seq<Pulled>,
}

/// The outcome of a read that failed with `error`.
pub open spec fn failed<T>(error: XmlReadErrorView) -> Parsed<T> {
    Parsed { result: Err(error), rest: Seq::empty() }
}

/// The result of the next pull. A tokenizer that has run dry keeps reporting
/// the end of the document.
pub open spec fn first(events: Seq<Pulled>) -> Pulled {
    if events.len() > 0 {
        events[0]
    } else {
        Ok(
            XmlEventView {
                kind: XmlEventKindView::EndDocument,
                attributes: Seq::empty(),
                namespace: Seq::empty(),
                shown: Seq::empty(),
            },
        )
    }
}

/// What stays pending after the next pull.
pub open spec fn after_first(events: Seq<Pulled>) -> Seq<Pulled> {
    if events.len() > 0 {
        events.skip(1)
    } else {
        events
    }
}

/// The text of several items with `separator` between each two.
pub open spec fn joined(items: Seq<Seq<char>>, separator: Seq<char>) -> Seq<char>
    decreases items.len(),
{
    if items.len() == 0 {
        Seq::empty()
    } else if items.len() == 1 {
        items[0]
    } else {
        joined(items.drop_last(), separator) + separator + items.last()
    }
}

/// The failure of the tokenizer itself while `element` was read.
pub open spec fn source_failure(element: Seq<char>, error: xml::reader::Error) -> XmlReadErrorView {
    XmlReadErrorView::ElementReadError { error, element }
}

/// The failure that reports `event` as out of place in `element`.
pub open spec fn unexpected(element: Seq<char>, event: XmlEventView) -> XmlReadErrorView {
    XmlReadErrorView::UnexpectedElementReadError {
        error: "Got unexpected element "@ + event.shown,
        element,
    }
}

/// The failure that reports `event` as out of place in `element`, where only
/// elements named in `valid` may stand.
pub open spec fn unexpected_among(
    element: Seq<char>,
    valid: Seq<Seq<char>>,
    event: XmlEventView,
) -> XmlReadErrorView {
    XmlReadErrorView::UnexpectedElementReadError {
        error: "Got unexpected element "@ + event.shown + ", expected one of: "@ + joined(
            valid,
            ", "@,
        ),
        element,
    }
}

/// The text that `event` carries, if it is character data or a CDATA
/// section; else the failure that reports it as out of place in `element`.
pub open spec fn inner_text(element: Seq<char>, event: XmlEventView) -> Result<
    Seq<char>,
    XmlReadErrorView,
> {
    match event.kind {
        XmlEventKindView::Characters(text) => Ok(text),
        XmlEventKindView::CData(text) => Ok(text),
        _ => Err(unexpected(element, event)),
    }
}

/// Success if `event` closes the element `element`, with the same qualified
/// name; else the failure that reports it as out of place there.
pub open spec fn closing_tag(element: ElementNameView, event: XmlEventView) -> Result<
    (),
    XmlReadErrorView,
> {
    match event.kind {
        XmlEventKindView::EndElement { name } if name == element => Ok(()),
        _ => Err(unexpected(element.display(), event)),
    }
}

/// Reading an element that holds text only, after its opening tag: one run
/// of character data, then the closing tag of `element`.
pub open spec fn simple_tag(events: Seq<Pulled>, element: ElementNameView) -> Parsed<Seq<char>> {
    match first(events) {
        Err(error) => failed(source_failure(element.display(), error)),
        Ok(event) => match inner_text(element.display(), event) {
            Err(error) => failed(error),
            Ok(text) => match first(after_first(events)) {
                Err(error) => failed(source_failure(element.display(), error)),
                Ok(closing) => match closing_tag(element, closing) {
                    Err(error) => failed(error),
                    Ok(_) => Parsed { result: Ok(text), rest: after_first(after_first(events)) },
                },
            },
        },
    }
}

/// The mathematical value of a read that yields text.
pub open spec fn text_outcome(result: Result<String, XmlReadError>) -> Result<
    Seq<char>,
    XmlReadErrorView,
> {
    match result {
        Ok(text) => Ok(text@),
        Err(error) => Err(error@),
    }
}

/// The mathematical value of a read that yields nothing.
pub open spec fn unit_outcome(result: Result<(), XmlReadError>) -> Result<(), XmlReadErrorView> {
    match result {
        Ok(_) => Ok(()),
        Err(error) => Err(error@),
    }
}

/// The mathematical value of a read that yields a value.
pub open spec fn value_outcome(result: Result<Value, XmlReadError>) -> Result<
    ValueView,
    XmlReadErrorView,
> {
    match result {
        Ok(value) => Ok(value@),
        Err(error) => Err(error@),
    }
}

/// The mathematical value of a read that yields a run of values.
pub open spec fn values_outcome(result: Result<Vec<Value>, XmlReadError>) -> Result<
    Seq<ValueView>,
    XmlReadErrorView,
> {
    match result {
        Ok(values) => Ok(crate::schema::values_view(values@)),
        Err(error) => Err(error@),
    }
}

/// The mathematical value of a read that yields a name.
pub open spec fn name_outcome(result: Result<crate::event::ElementName, XmlReadError>) -> Result<
    ElementNameView,
    XmlReadErrorView,
> {
    match result {
        Ok(name) => Ok(name@),
        Err(error) => Err(error@),
    }
}

/// The failure that reports `element` as closed without `required_field`.
pub open spec fn required_missing(required_field: Seq<char>, element: Seq<char>) -> XmlReadErrorView {
    XmlReadErrorView::RequiredDataMissing { required_field, element }
}

/// Reading a text element after its opening tag.
pub open spec fn read_text(events: Seq<Pulled>, name: ElementNameView) -> Parsed<ValueView> {
    let read = simple_tag(events, name);
    match read.result {
        Err(error) => failed(error),
        Ok(text) => Parsed { result: Ok(ValueView::Text(text)), rest: read.rest },
    }
}

/// Reading a boolean element after its opening tag.
pub open spec fn read_boolean(events: Seq<Pulled>, name: ElementNameView) -> Parsed<ValueView> {
    let read = simple_tag(events, name);
    match read.result {
        Err(error) => failed(error),
        Ok(text) => match boolean_of(text) {
            Some(value) => Parsed { result: Ok(ValueView::Boolean(value)), rest: read.rest },
            None => failed(invalid_parse(text, "xs:boolean"@, name.display())),
        },
    }
}

/// Reading an unsigned integer element after its opening tag.
pub open spec fn read_unsigned(events: Seq<Pulled>, name: ElementNameView) -> Parsed<ValueView> {
    let read = simple_tag(events, name);
    match read.result {
        Err(error) => failed(error),
        Ok(text) => match unsigned_of(text) {
            Some(value) => Parsed { result: Ok(ValueView::Unsigned(value)), rest: read.rest },
            None => failed(invalid_parse(text, "xs:integer"@, name.display())),
        },
    }
}

/// The slots of a record that has `count` fields, all of them empty.
pub open spec fn empty_slots(count: nat) -> Seq<Option<ValueView>> {
    Seq::new(count, |i: int| None)
}

/// The index of the first empty slot at or after `from`.
pub open spec fn first_empty_from(slots: Seq<Option<ValueView>>, from: int) -> Option<int>
    decreases slots.len() - from,
{
    if from < 0 || from >= slots.len() {
        None
    } else if slots[from] is None {
        Some(from)
    } else {
        first_empty_from(slots, from + 1)
    }
}

/// The record that the filled slots make up, or the failure that names the
/// first declared field whose slot is still empty.
pub open spec fn assemble(
    fields: Seq<Field>,
    slots: Seq<Option<ValueView>>,
    name: ElementNameView,
) -> Result<ValueView, XmlReadErrorView> {
    match first_empty_from(slots, 0) {
        Some(index) => Err(required_missing(fields[index].tag@, name.display())),
        None => Ok(
            ValueView::Record(
                Seq::new(
                    fields.len(),
                    |i: int| FieldValueView { tag: fields[i].tag@, value: slots[i]->0 },
                ),
            ),
        ),
    }
}

/// Reading an element of the type `ty`, after its opening tag `name`.
pub open spec fn read_element(ty: ElementType, events: Seq<Pulled>, name: ElementNameView) -> Parsed<
    ValueView,
>
    decreases events.len(), 2nat,
{
    match ty {
        ElementType::Text => read_text(events, name),
        ElementType::Boolean => read_boolean(events, name),
        ElementType::Unsigned => read_unsigned(events, name),
        ElementType::Record(fields) => read_record(fields@, events, name),
        ElementType::List { item_tag, item } => {
            let read = read_items(*item, events, name, item_tag@, Seq::empty());
            match read.result {
                Err(error) => failed(error),
                Ok(items) => Parsed {
                    result: Ok(ValueView::List { item_tag: item_tag@, items }),
                    rest: read.rest,
                },
            }
        },
    }
}

/// Reading a record after its opening tag `name`: its children in any
/// order, each into the slot of its field, up to the closing tag; then every
/// slot must be filled.
pub open spec fn read_record(fields: Seq<Field>, events: Seq<Pulled>, name: ElementNameView) -> Parsed<
    ValueView,
>
    decreases events.len(), 1nat,
{
    let scanned = read_fields(fields, events, name, empty_slots(fields.len()));
    match scanned.result {
        Err(error) => failed(error),
        Ok(slots) => match assemble(fields, slots, name) {
            Err(error) => failed(error),
            Ok(value) => Parsed { result: Ok(value), rest: scanned.rest },
        },
    }
}

/// What the scan of a record does with one event.
pub enum RecordStepView {
    /// The event opens the child `name`, which stands for the field at
    /// `index`, with the attributes and namespace bindings of its opening
    /// tag.
    Field {
        index: int,
        name: ElementNameView,
        attributes: Seq<AttributeView>,
        namespace: Seq<(Seq<char>, Seq<char>)>,
    },
    /// The event closes the record.
    Closed,
}

/// What the scan of a list does with one event.
pub enum ListStepView {
    /// The event opens the member `name`, with the attributes and namespace
    /// bindings of its opening tag.
    Member {
        name: ElementNameView,
        attributes: Seq<AttributeView>,
        namespace: Seq<(Seq<char>, Seq<char>)>,
    },
    /// The event closes the list.
    Closed,
}

/// What the scan of the record `name` does with `event`: an opening tag
/// whose local name is the tag of a declared field opens that field, the
/// first one with that tag; the closing tag of `name` closes the record; any
/// other event is out of place.
pub open spec fn record_step(fields: Seq<Field>, name: ElementNameView, event: XmlEventView) -> Result<
    RecordStepView,
    XmlReadErrorView,
> {
    match event.kind {
        XmlEventKindView::StartElement { name: child } if field_index(fields, child.local_name)
            is Some => Ok(
            RecordStepView::Field {
                index: field_index(fields, child.local_name)->0,
                name: child,
                attributes: event.attributes,
                namespace: event.namespace,
            },
        ),
        XmlEventKindView::EndElement { name: closed } if closed == name => Ok(
            RecordStepView::Closed,
        ),
        _ => Err(unexpected(name.display(), event)),
    }
}

/// What the scan of the list `name` does with `event`: an opening tag whose
/// local name is `inner_tag` opens a member; the closing tag of `name`
/// closes the list; any other event is out of place, and the failure names
/// `inner_tag` as what may stand there.
pub open spec fn list_step(name: ElementNameView, inner_tag: Seq<char>, event: XmlEventView) -> Result<
    ListStepView,
    XmlReadErrorView,
> {
    match event.kind {
        XmlEventKindView::StartElement { name: child } if child.local_name == inner_tag => Ok(
            ListStepView::Member {
                name: child,
                attributes: event.attributes,
                namespace: event.namespace,
            },
        ),
        XmlEventKindView::EndElement { name: closed } if closed == name => Ok(ListStepView::Closed),
        _ => Err(unexpected_among(name.display(), seq![inner_tag], event)),
    }
}

/// Scanning the children of a record whose slots so far are `slots`. A
/// child that stands for a field is read as that field's type and replaces
/// what the slot held; the closing tag of `name` ends the scan; any other
/// event fails it.
pub open spec fn read_fields(
    fields: Seq<Field>,
    events: Seq<Pulled>,
    name: ElementNameView,
    slots: Seq<Option<ValueView>>,
) -> Parsed<Seq<Option<ValueView>>>
    decreases events.len(), 0nat,
{
    match first(events) {
        Err(error) => failed(source_failure(name.display(), error)),
        Ok(event) => match record_step(fields, name, event) {
            Err(error) => failed(error),
            Ok(RecordStepView::Closed) => Parsed { result: Ok(slots), rest: after_first(events) },
            Ok(RecordStepView::Field { index, name: child, .. }) => {
                if events.len() == 0 {
                    failed(unexpected(name.display(), event))
                } else {
                    let inner = read_element(fields[index].ty, events.skip(1), child);
                    match inner.result {
                        Err(error) => failed(error),
                        Ok(value) => if inner.rest.len() < events.len() {
                            read_fields(fields, inner.rest, name, slots.update(index, Some(value)))
                        } else {
                            failed(unexpected(name.display(), event))
                        },
                    }
                }
            },
        },
    }
}

/// Reading the members of a list after the opening tag `name` of its
/// container, `items` being read already. A child under `inner_tag` is read
/// as one more member; the closing tag of `name` ends the list; any other
/// event fails it.
pub open spec fn read_items(
    item: ElementType,
    events: Seq<Pulled>,
    name: ElementNameView,
    inner_tag: Seq<char>,
    items: Seq<ValueView>,
) -> Parsed<Seq<ValueView>>
    decreases events.len(), 0nat,
{
    match first(events) {
        Err(error) => failed(source_failure(name.local_name, error)),
        Ok(event) => match list_step(name, inner_tag, event) {
            Err(error) => failed(error),
            Ok(ListStepView::Closed) => Parsed { result: Ok(items), rest: after_first(events) },
            Ok(ListStepView::Member { name: child, .. }) => {
                if events.len() == 0 {
                    failed(unexpected_among(name.display(), seq![inner_tag], event))
                } else {
                    let inner = read_element(item, events.skip(1), child);
                    match inner.result {
                        Err(error) => failed(error),
                        Ok(value) => if inner.rest.len() < events.len() {
                            read_items(item, inner.rest, name, inner_tag, items.push(value))
                        } else {
                            failed(unexpected_among(name.display(), seq![inner_tag], event))
                        },
                    }
                }
            },
        },
    }
}

/// Success if `event` is the start of the document; else the failure that
/// reports it as out of place in the root element `tag`.
pub open spec fn document_start(tag: Seq<char>, event: XmlEventView) -> Result<
    (),
    XmlReadErrorView,
> {
    match event.kind {
        XmlEventKindView::StartDocument => Ok(()),
        _ => Err(unexpected(tag, event)),
    }
}

/// The name of the root element if `event` opens an element whose local
/// name is `tag`; else the failure that reports it as out of place there.
pub open spec fn document_root(tag: Seq<char>, event: XmlEventView) -> Result<
    ElementNameView,
    XmlReadErrorView,
> {
    match event.kind {
        XmlEventKindView::StartElement { name } if name.local_name == tag => Ok(name),
        _ => Err(unexpected(tag, event)),
    }
}

/// Success if `event` is the end of the document; else the failure that
/// reports it as out of place in the root element `tag`.
pub open spec fn document_end(tag: Seq<char>, event: XmlEventView) -> Result<(), XmlReadErrorView> {
    match event.kind {
        XmlEventKindView::EndDocument => Ok(()),
        _ => Err(unexpected(tag, event)),
    }
}

/// Reading a whole document of the shape `schema`: the start of the
/// document, the root element under the schema's tag, its record, and the
/// end of the document.
pub open spec fn read_document(schema: RecordSchema, events: Seq<Pulled>) -> Result<
    ValueView,
    XmlReadErrorView,
> {
    let tag = schema.tag@;
    match first(events) {
        Err(error) => Err(source_failure(tag, error)),
        Ok(opening) => match document_start(tag, opening) {
            Err(error) => Err(error),
            Ok(_) => match first(after_first(events)) {
                Err(error) => Err(source_failure(tag, error)),
                Ok(root) => match document_root(tag, root) {
                    Err(error) => Err(error),
                    Ok(name) => {
                        let body = read_record(
                            schema.fields@,
                            after_first(after_first(events)),
                            name,
                        );
                        match body.result {
                            Err(error) => Err(error),
                            Ok(value) => match first(body.rest) {
                                Err(error) => Err(source_failure(tag, error)),
                                Ok(ending) => match document_end(tag, ending) {
                                    Err(error) => Err(error),
                                    Ok(_) => Ok(value),
                                },
                            },
                        }
                    },
                },
            },
        },
    }
}

/// Where no slot at or after `from` is empty, the slot at `at` is filled.
pub proof fn lemma_no_empty_slot(slots: Seq<Option<ValueView>>, from: int, at: int)
    requires
        0 <= from <= at < slots.len(),
        first_empty_from(slots, from) is None,
    ensures
        slots[at] is Some,
    decreases at - from,
{
    if from < at {
        lemma_no_empty_slot(slots, from + 1, at);
    }
}

/// Whether `rest` is what stays of `events` after some of it was pulled.
pub open spec fn follows(rest: Seq<Pulled>, events: Seq<Pulled>) -> bool {
    rest.len() <= events.len() && rest == events.skip(events.len() - rest.len())
}

/// What stays after what stays is what stays.
pub proof fn lemma_follows_chain(last: Seq<Pulled>, middle: Seq<Pulled>, events: Seq<Pulled>)
    requires
        follows(last, middle),
        follows(middle, events),
    ensures
        follows(last, events),
{
    assert(events.skip(events.len() - middle.len()).skip(middle.len() - last.len())
        =~= events.skip(events.len() - last.len()));
}

/// A successful read of text leaves what follows its two events.
pub proof fn lemma_simple_tag_consumes(events: Seq<Pulled>, name: ElementNameView)
    ensures
        simple_tag(events, name).result is Ok ==> follows(simple_tag(events, name).rest, events),
{
    if simple_tag(events, name).result is Ok {
        if events.len() == 0 {
        } else if events.len() == 1 {
            assert(events.skip(1).skip(1) =~= events.skip(1));
        } else {
            assert(events.skip(1).skip(1) =~= events.skip(2));
        }
    }
}

/// A successful read of an element leaves a part of what it found.
pub proof fn lemma_element_consumes(ty: ElementType, events: Seq<Pulled>, name: ElementNameView)
    ensures
        read_element(ty, events, name).result is Ok ==> follows(
            read_element(ty, events, name).rest,
            events,
        ),
    decreases events.len(), 2nat,
{
    match ty {
        ElementType::Record(fields) => {
            lemma_fields_consume(fields@, events, name, empty_slots(fields@.len()));
        },
        ElementType::List { item_tag, item } => {
            lemma_items_consume(*item, events, name, item_tag@, Seq::empty());
        },
        _ => {
            lemma_simple_tag_consumes(events, name);
        },
    }
}

/// A successful scan of the children of a record leaves a part of what it
/// found.
pub proof fn lemma_fields_consume(
    fields: Seq<Field>,
    events: Seq<Pulled>,
    name: ElementNameView,
    slots: Seq<Option<ValueView>>,
)
    ensures
        read_fields(fields, events, name, slots).result is Ok ==> follows(
            read_fields(fields, events, name, slots).rest,
            events,
        ),
    decreases events.len(), 0nat,
{
    if let Ok(event) = first(events) {
        if let Ok(RecordStepView::Field { index, name: child, .. }) = record_step(fields, name, event) {
            if events.len() > 0 {
                let inner = read_element(fields[index].ty, events.skip(1), child);
                if let Ok(value) = inner.result {
                    lemma_element_consumes(fields[index].ty, events.skip(1), child);
                    if inner.rest.len() < events.len() {
                        let filled = slots.update(index, Some(value));
                        lemma_fields_consume(fields, inner.rest, name, filled);
                        if read_fields(fields, inner.rest, name, filled).result is Ok {
                            lemma_follows_chain(inner.rest, events.skip(1), events);
                            lemma_follows_chain(
                                read_fields(fields, inner.rest, name, filled).rest,
                                inner.rest,
                                events,
                            );
                        }
                    }
                }
            }
        }
    }
}

/// A successful read of the members of a list leaves a part of what it
/// found.
pub proof fn lemma_items_consume(
    item: ElementType,
    events: Seq<Pulled>,
    name: ElementNameView,
    inner_tag: Seq<char>,
    items: Seq<ValueView>,
)
    ensures
        read_items(item, events, name, inner_tag, items).result is Ok ==> follows(
            read_items(item, events, name, inner_tag, items).rest,
            events,
        ),
    decreases events.len(), 0nat,
{
    if let Ok(event) = first(events) {
        if let Ok(ListStepView::Member { name: child, .. }) = list_step(name, inner_tag, event) {
            if events.len() > 0 {
                let inner = read_element(item, events.skip(1), child);
                if let Ok(value) = inner.result {
                    lemma_element_consumes(item, events.skip(1), child);
                    if inner.rest.len() < events.len() {
                        let read = items.push(value);
                        lemma_items_consume(item, inner.rest, name, inner_tag, read);
                        if read_items(item, inner.rest, name, inner_tag, read).result is Ok {
                            lemma_follows_chain(inner.rest, events.skip(1), events);
                            lemma_follows_chain(
                                read_items(item, inner.rest, name, inner_tag, read).rest,
                                inner.rest,
                                events,
                            );
                        }
                    }
                }
            }
        }
    }
}

} // verus!
