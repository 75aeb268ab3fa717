//! What holds of reading and writing together.

use vstd::prelude::*;

use crate::errors::XmlReadErrorView;
use crate::event::{ElementNameView, XmlEventKindView, XmlEventView};
use crate::grammar::{
    after_first, empty_slots, first, first_empty_from, lemma_element_consumes,
    lemma_follows_chain, list_step, read_document, read_element, read_fields, read_items,
    read_record, record_step, required_missing, unexpected, ListStepView, Parsed,
    RecordStepView,
};
use crate::layout::element_events;
use crate::reader::Pulled;
use crate::schema::{
    distinct_tags, field_index, lemma_field_index_distinct, lemma_field_index_found, ElementType,
    Field, RecordSchema, ValueView,
};
use crate::writer::WriteEvent;

verus! {

/// Whether `result` is an opening tag with the local name `tag`.
pub open spec fn opens_tag(result: Pulled, tag: Seq<char>) -> bool {
    match result {
        Ok(event) => event.kind matches XmlEventKindView::StartElement { name } && name.local_name
            == tag,
        Err(_) => false,
    }
}

/// Whether no element named `tag` opens anywhere in `events`.
pub open spec fn omits_tag(events: Seq<Pulled>, tag: Seq<char>) -> bool {
    forall|i: int| 0 <= i < events.len() ==> !opens_tag(#[trigger] events[i], tag)
}

/// The tag of a declared field is the tag under which its element is
/// written, and the tag by which a child is taken for that field when a
/// record is read, whatever namespace and prefix the child carries.
pub proof fn declared_tag_is_read_and_written(
    fields: Seq<Field>,
    index: int,
    value: ValueView,
    name: ElementNameView,
    opened: XmlEventView,
)
    requires
        0 <= index < fields.len(),
        distinct_tags(fields),
        opened.kind matches XmlEventKindView::StartElement { name: child } && child.local_name
            == fields[index].tag@,
    ensures
        element_events(value, fields[index].tag@)[0] == WriteEvent::StartElement(
            fields[index].tag@,
        ),
        record_step(fields, name, opened) == Ok::<RecordStepView, XmlReadErrorView>(
            RecordStepView::Field {
                index,
                name: opened.kind->StartElement_name,
                attributes: opened.attributes,
                namespace: opened.namespace,
            },
        ),
{
    lemma_field_index_distinct(fields, index, 0);
}

/// A list without members reads as the empty sequence, and the empty
/// sequence is written as the opening and closing tag of the container, with
/// nothing between them.
pub proof fn empty_list_round_trip(
    item: ElementType,
    item_tag: Seq<char>,
    name: ElementNameView,
    closing: XmlEventView,
    rest: Seq<Pulled>,
)
    requires
        closing.kind == (XmlEventKindView::EndElement { name }),
    ensures
        read_items(item, seq![Ok(closing)] + rest, name, item_tag, Seq::empty()) == (Parsed {
            result: Ok(Seq::<ValueView>::empty()),
            rest,
        }),
        element_events(
            ValueView::List { item_tag, items: Seq::empty() },
            name.local_name,
        ) == seq![WriteEvent::StartElement(name.local_name), WriteEvent::EndElement],
{
    let events = seq![Ok(closing)] + rest;
    assert(events.skip(1) =~= rest);
    assert(crate::layout::items_events(Seq::<ValueView>::empty(), item_tag, 0) =~= Seq::<
        WriteEvent,
    >::empty());
    assert(element_events(ValueView::List { item_tag, items: Seq::empty() }, name.local_name)
        =~= seq![WriteEvent::StartElement(name.local_name), WriteEvent::EndElement]);
}

/// A child whose tag is the tag of no declared field fails the read of the
/// record, whatever was read before it: the child is reported as out of
/// place, and nothing is skipped.
pub proof fn unknown_child_is_rejected(
    fields: Seq<Field>,
    events: Seq<Pulled>,
    name: ElementNameView,
    slots: Seq<Option<ValueView>>,
    child: XmlEventView,
)
    requires
        first(events) == Ok::<XmlEventView, xml::reader::Error>(child),
        child.kind matches XmlEventKindView::StartElement { name: opened } && field_index(
            fields,
            opened.local_name,
        ) is None,
    ensures
        read_fields(fields, events, name, slots).result == Err::<
            Seq<Option<ValueView>>,
            XmlReadErrorView,
        >(unexpected(name.display(), child)),
{
}

/// The failure of a child is the failure of the record: it is passed on as
/// it is, with the element that it names.
pub proof fn failure_of_a_field_is_passed_on(
    fields: Seq<Field>,
    events: Seq<Pulled>,
    name: ElementNameView,
    slots: Seq<Option<ValueView>>,
    opened: XmlEventView,
    error: XmlReadErrorView,
)
    requires
        events.len() > 0,
        events[0] == Ok::<XmlEventView, xml::reader::Error>(opened),
        record_step(fields, name, opened) matches Ok(RecordStepView::Field { index, name: child, .. })
            && read_element(fields[index].ty, events.skip(1), child).result == Err::<
            ValueView,
            XmlReadErrorView,
        >(error),
    ensures
        read_fields(fields, events, name, slots).result == Err::<
            Seq<Option<ValueView>>,
            XmlReadErrorView,
        >(error),
{
}

/// The failure of a member is the failure of the list: it is passed on as
/// it is, with the element that it names.
pub proof fn failure_of_a_member_is_passed_on(
    item: ElementType,
    events: Seq<Pulled>,
    name: ElementNameView,
    inner_tag: Seq<char>,
    items: Seq<ValueView>,
    opened: XmlEventView,
    error: XmlReadErrorView,
)
    requires
        events.len() > 0,
        events[0] == Ok::<XmlEventView, xml::reader::Error>(opened),
        list_step(name, inner_tag, opened) matches Ok(ListStepView::Member { name: child, .. })
            && read_element(item, events.skip(1), child).result == Err::<
            ValueView,
            XmlReadErrorView,
        >(error),
    ensures
        read_items(item, events, name, inner_tag, items).result == Err::<
            Seq<ValueView>,
            XmlReadErrorView,
        >(error),
{
}

/// A scan of children among which no element named after the field `index`
/// opens leaves the slot of that field as it was.
pub proof fn lemma_scan_keeps_slot(
    fields: Seq<Field>,
    events: Seq<Pulled>,
    name: ElementNameView,
    slots: Seq<Option<ValueView>>,
    index: int,
)
    requires
        0 <= index < fields.len(),
        slots.len() == fields.len(),
        omits_tag(events, fields[index].tag@),
    ensures
        read_fields(fields, events, name, slots).result matches Ok(filled) ==> filled.len()
            == fields.len() && filled[index] == slots[index],
    decreases events.len(),
{
    if let Ok(event) = first(events) {
        if let XmlEventKindView::StartElement { name: child } = event.kind {
            if field_index(fields, child.local_name) is Some && events.len() > 0 {
                let found = field_index(fields, child.local_name)->0;
                lemma_field_index_found(fields, child.local_name, 0);
                assert(!opens_tag(events[0], fields[index].tag@));
                let inner = read_element(fields[found].ty, events.skip(1), child);
                if let Ok(value) = inner.result {
                    if inner.rest.len() < events.len() {
                        lemma_element_consumes(fields[found].ty, events.skip(1), child);
                        lemma_follows_chain(inner.rest, events.skip(1), events);
                        assert forall|i: int| 0 <= i < inner.rest.len() implies !opens_tag(
                            #[trigger] inner.rest[i],
                            fields[index].tag@,
                        ) by {
                            assert(inner.rest[i] == events[events.len() - inner.rest.len() + i]);
                        }
                        lemma_scan_keeps_slot(
                            fields,
                            inner.rest,
                            name,
                            slots.update(found, Some(value)),
                            index,
                        );
                    }
                }
            }
        }
    }
}

/// The first empty slot stands at or before any empty slot.
pub proof fn lemma_first_empty(slots: Seq<Option<ValueView>>, from: int, index: int)
    requires
        0 <= from <= index < slots.len(),
        slots[index] is None,
    ensures
        first_empty_from(slots, from) matches Some(least) && from <= least <= index
            && slots[least] is None && forall|j: int| from <= j < least ==> slots[j] is Some,
    decreases index - from,
{
    if slots[from] is Some {
        lemma_first_empty(slots, from + 1, index);
    }
}

/// A record among whose children no element named after one of its
/// declared fields opens is not read: the read fails. Where the children
/// are in order up to the closing tag, the failure is the one that names the
/// element and the first declared field without a child, which is the
/// omitted field if all fields declared before it are present.
pub proof fn omitted_field_fails_record(
    fields: Seq<Field>,
    events: Seq<Pulled>,
    name: ElementNameView,
    index: int,
)
    requires
        0 <= index < fields.len(),
        omits_tag(events, fields[index].tag@),
    ensures
        read_record(fields, events, name).result is Err,
        read_fields(fields, events, name, empty_slots(fields.len())).result matches Ok(slots)
            ==> {
            let least = first_empty_from(slots, 0);
            &&& least matches Some(missing) && 0 <= missing <= index
            &&& read_record(fields, events, name).result == Err::<ValueView, XmlReadErrorView>(
                required_missing(fields[least->0].tag@, name.display()),
            )
            &&& (forall|j: int| 0 <= j < index ==> slots[j] is Some) ==> least == Some(index)
        },
{
    let slots = empty_slots(fields.len());
    lemma_scan_keeps_slot(fields, events, name, slots, index);
    if let Ok(filled) = read_fields(fields, events, name, slots).result {
        lemma_first_empty(filled, 0, index);
    }
}

/// A document among whose events no element named after one of the
/// declared fields opens is not read: the read fails.
pub proof fn omitted_field_fails_document(schema: RecordSchema, events: Seq<Pulled>, index: int)
    requires
        0 <= index < schema.fields@.len(),
        omits_tag(events, schema.fields@[index].tag@),
    ensures
        read_document(schema, events) is Err,
{
    if let Ok(opening) = first(events) {
        if let Ok(root) = first(after_first(events)) {
            if let XmlEventKindView::StartElement { name } = root.kind {
                let body = after_first(after_first(events));
                assert forall|i: int| 0 <= i < body.len() implies !opens_tag(
                    #[trigger] body[i],
                    schema.fields@[index].tag@,
                ) by {
                    assert(body[i] == events[i + 2]);
                }
                omitted_field_fails_record(schema.fields@, body, name, index);
            }
        }
    }
}

} // verus!
