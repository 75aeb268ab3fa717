//! Reading what was written: the documents that the writers produce are
//! read back as the values that were written.

use vstd::prelude::*;

use crate::codec::{
    boolean_text, decimal, lemma_boolean_round_trip, lemma_unsigned_round_trip,
};
use crate::errors::XmlReadErrorView;
use crate::event::{ElementNameView, XmlEventKindView};
use crate::grammar::{
    after_first, assemble, empty_slots, first, first_empty_from, lemma_element_consumes,
    lemma_no_empty_slot, read_document, read_element, read_fields, read_items, simple_tag,
    Parsed,
};
use crate::layout::{element_events, fields_events, items_events, simple_tag_events};
use crate::reader::Pulled;
use crate::schema::{
    conforms, field_index, lemma_field_index_distinct, lemma_field_index_found, unambiguous,
    ElementType, Field, FieldValueView, RecordSchema, ValueView,
};
use crate::writer::WriteEvent;

verus! {

/// What one result of the tokenizer contributes to the structure of a
/// document: an opening tag its local name, a closing tag itself, character
/// data and CDATA their text, and anything else nothing.
pub open spec fn event_structure(result: Pulled) -> Seq<WriteEvent> {
    match result {
        Ok(event) => match event.kind {
            XmlEventKindView::StartElement { name } => seq![
                WriteEvent::StartElement(name.local_name),
            ],
            XmlEventKindView::EndElement { .. } => seq![WriteEvent::EndElement],
            XmlEventKindView::Characters(text) => seq![WriteEvent::Characters(text)],
            XmlEventKindView::CData(text) => seq![WriteEvent::Characters(text)],
            _ => Seq::empty(),
        },
        Err(_) => Seq::empty(),
    }
}

/// The structure of a run of events: its tags, their nesting and the text
/// between them.
pub open spec fn structure(events: Seq<Pulled>) -> Seq<WriteEvent>
    decreases events.len(),
{
    if events.len() == 0 {
        Seq::empty()
    } else {
        event_structure(events[0]) + structure(events.skip(1))
    }
}

/// Whether `result` is an event of the kind `kind`.
pub open spec fn is_event(result: Pulled, kind: XmlEventKindView) -> bool {
    result matches Ok(event) && event.kind == kind
}

/// Whether `events` begins with the text `text`, as character data or as
/// CDATA, and the closing tag of `name`; if so, what follows them.
pub open spec fn spells_text(text: Seq<char>, events: Seq<Pulled>, name: ElementNameView) -> Option<
    Seq<Pulled>,
> {
    if events.len() >= 2 && (is_event(events[0], XmlEventKindView::Characters(text)) || is_event(
        events[0],
        XmlEventKindView::CData(text),
    )) && is_event(events[1], XmlEventKindView::EndElement { name }) {
        Some(events.skip(2))
    } else {
        None
    }
}

/// Whether `events` begins with the content of `value` in the form in which
/// it is written, and the closing tag of `name`; if so, what follows them.
/// The names of the elements may carry any namespace and prefix, as long as
/// each closing tag repeats the name of its opening tag.
pub open spec fn spells_element(value: ValueView, events: Seq<Pulled>, name: ElementNameView) -> Option<
    Seq<Pulled>,
>
    decreases value, 0nat,
{
    match value {
        ValueView::Text(text) => spells_text(text, events, name),
        ValueView::Boolean(value) => spells_text(boolean_text(value), events, name),
        ValueView::Unsigned(value) => spells_text(decimal(value as nat), events, name),
        ValueView::Record(fields) => spells_fields(fields, 0, events, name),
        ValueView::List { item_tag, items } => spells_items(items, item_tag, 0, events, name),
    }
}

/// Whether `events` begins with the fields from `from` on, each as an
/// element under its tag and all in order, and the closing tag of `name`;
/// if so, what follows them.
pub open spec fn spells_fields(
    fields: Seq<FieldValueView>,
    from: nat,
    events: Seq<Pulled>,
    name: ElementNameView,
) -> Option<Seq<Pulled>>
    decreases fields, fields.len() - from,
{
    if from >= fields.len() {
        if events.len() >= 1 && is_event(events[0], XmlEventKindView::EndElement { name }) {
            Some(events.skip(1))
        } else {
            None
        }
    } else {
        match first(events) {
            Ok(event) => match event.kind {
                XmlEventKindView::StartElement { name: child } if events.len() >= 1
                    && child.local_name == fields[from as int].tag => match spells_element(
                    fields[from as int].value,
                    events.skip(1),
                    child,
                ) {
                    Some(rest) => spells_fields(fields, from + 1, rest, name),
                    None => None,
                },
                _ => None,
            },
            Err(_) => None,
        }
    }
}

/// Whether `events` begins with the members from `from` on, each as an
/// element under `item_tag` and all in order, and the closing tag of
/// `name`; if so, what follows them.
pub open spec fn spells_items(
    items: Seq<ValueView>,
    item_tag: Seq<char>,
    from: nat,
    events: Seq<Pulled>,
    name: ElementNameView,
) -> Option<Seq<Pulled>>
    decreases items, items.len() - from,
{
    if from >= items.len() {
        if events.len() >= 1 && is_event(events[0], XmlEventKindView::EndElement { name }) {
            Some(events.skip(1))
        } else {
            None
        }
    } else {
        match first(events) {
            Ok(event) => match event.kind {
                XmlEventKindView::StartElement { name: child } if events.len() >= 1
                    && child.local_name == item_tag => match spells_element(
                    items[from as int],
                    events.skip(1),
                    child,
                ) {
                    Some(rest) => spells_items(items, item_tag, from + 1, rest, name),
                    None => None,
                },
                _ => None,
            },
            Err(_) => None,
        }
    }
}

/// Whether `events` is the document that the writers make of `value` under
/// the root tag `tag`: the start of the document, the opening tag of the
/// root, the content of `value` as it is written, and the end of the
/// document.
pub open spec fn canonical_document(tag: Seq<char>, value: ValueView, events: Seq<Pulled>) -> bool {
    &&& events.len() >= 2
    &&& is_event(events[0], XmlEventKindView::StartDocument)
    &&& events[1] matches Ok(root)
    &&& root.kind matches XmlEventKindView::StartElement { name }
    &&& name.local_name == tag
    &&& spells_element(value, events.skip(2), name) matches Some(rest)
    &&& rest.len() == 1
    &&& is_event(rest[0], XmlEventKindView::EndDocument)
}

/// Text that stands as it is written is read back as itself.
proof fn lemma_reads_text(text: Seq<char>, events: Seq<Pulled>, name: ElementNameView)
    requires
        spells_text(text, events, name) is Some,
    ensures
        simple_tag(events, name) == (Parsed {
            result: Ok(text),
            rest: spells_text(text, events, name)->0,
        }),
{
    assert(events.skip(1)[0] == events[1]);
    assert(events.skip(1).skip(1) =~= events.skip(2));
}

/// The slots of a record whose first `count` fields are read.
pub open spec fn slots_filled(fields: Seq<FieldValueView>, count: nat) -> Seq<Option<ValueView>> {
    Seq::new(
        fields.len(),
        |i: int|
            if i < count {
                Some(fields[i].value)
            } else {
                None
            },
    )
}

/// No slot of a record whose fields are all read is empty.
proof fn lemma_all_filled(fields: Seq<FieldValueView>, from: int)
    requires
        0 <= from <= fields.len(),
    ensures
        first_empty_from(slots_filled(fields, fields.len()), from) is None,
    decreases fields.len() - from,
{
    if from < fields.len() {
        lemma_all_filled(fields, from + 1);
    }
}

/// A value that stands as it is written is read back as itself: reading
/// an element of a type whose records have distinct tags, from events that
/// spell a value of that type, yields the value and leaves what follows it.
pub proof fn written_element_reads_back(
    ty: ElementType,
    value: ValueView,
    events: Seq<Pulled>,
    name: ElementNameView,
)
    requires
        unambiguous(ty),
        conforms(value, ty),
        spells_element(value, events, name) is Some,
    ensures
        read_element(ty, events, name) == (Parsed {
            result: Ok(value),
            rest: spells_element(value, events, name)->0,
        }),
    decreases value, 1nat,
{
    match value {
        ValueView::Text(text) => {
            lemma_reads_text(text, events, name);
        },
        ValueView::Boolean(flag) => {
            lemma_reads_text(boolean_text(flag), events, name);
            lemma_boolean_round_trip(flag);
        },
        ValueView::Unsigned(number) => {
            lemma_reads_text(decimal(number as nat), events, name);
            lemma_unsigned_round_trip(number);
        },
        ValueView::Record(fields) => {
            let declared = ty->Record_0@;
            assert(slots_filled(fields, 0) =~= empty_slots(declared.len()));
            lemma_written_fields_read_back(ty, fields, 0, events, name);
            lemma_all_filled(fields, 0);
            let slots = slots_filled(fields, fields.len());
            assert(assemble(declared, slots, name)->Ok_0->Record_0 =~= fields);
        },
        ValueView::List { item_tag, items } => {
            assert(items.take(0) =~= Seq::<ValueView>::empty());
            lemma_written_items_read_back(*ty->item, items, item_tag, 0, events, name);
            assert(items.take(items.len() as int) =~= items);
        },
    }
}

/// The fields of a record that stand as they are written, from `from` on,
/// are read into their slots.
proof fn lemma_written_fields_read_back(
    ty: ElementType,
    fields: Seq<FieldValueView>,
    from: nat,
    events: Seq<Pulled>,
    name: ElementNameView,
)
    requires
        ty is Record,
        unambiguous(ty),
        conforms(ValueView::Record(fields), ty),
        from <= fields.len(),
        spells_fields(fields, from, events, name) is Some,
    ensures
        read_fields(ty->Record_0@, events, name, slots_filled(fields, from)) == (Parsed {
            result: Ok(slots_filled(fields, fields.len())),
            rest: spells_fields(fields, from, events, name)->0,
        }),
    decreases fields, fields.len() - from,
{
    let declared = ty->Record_0@;
    if from >= fields.len() {
    } else {
        let event = first(events)->Ok_0;
        let child = event.kind->StartElement_name;
        let inner_rest = spells_element(fields[from as int].value, events.skip(1), child)->0;
        lemma_field_index_distinct(declared, from as int, 0);
        assert(fields[from as int].tag == declared[from as int].tag@);
        written_element_reads_back(
            declared[from as int].ty,
            fields[from as int].value,
            events.skip(1),
            child,
        );
        lemma_element_consumes(declared[from as int].ty, events.skip(1), child);
        assert(slots_filled(fields, from).update(from as int, Some(fields[from as int].value))
            =~= slots_filled(fields, from + 1));
        lemma_written_fields_read_back(ty, fields, from + 1, inner_rest, name);
    }
}

/// The members of a list that stand as they are written, from `from` on,
/// are read in order.
proof fn lemma_written_items_read_back(
    item: ElementType,
    items: Seq<ValueView>,
    item_tag: Seq<char>,
    from: nat,
    events: Seq<Pulled>,
    name: ElementNameView,
)
    requires
        unambiguous(item),
        forall|i: int| 0 <= i < items.len() ==> conforms(#[trigger] items[i], item),
        from <= items.len(),
        spells_items(items, item_tag, from, events, name) is Some,
    ensures
        read_items(item, events, name, item_tag, items.take(from as int)) == (Parsed {
            result: Ok(items),
            rest: spells_items(items, item_tag, from, events, name)->0,
        }),
    decreases items, items.len() - from,
{
    if from >= items.len() {
        assert(items.take(from as int) =~= items);
    } else {
        let event = first(events)->Ok_0;
        let child = event.kind->StartElement_name;
        let inner_rest = spells_element(items[from as int], events.skip(1), child)->0;
        written_element_reads_back(item, items[from as int], events.skip(1), child);
        lemma_element_consumes(item, events.skip(1), child);
        assert(items.take(from as int).push(items[from as int]) =~= items.take(from + 1 as int));
        lemma_written_items_read_back(item, items, item_tag, from + 1, inner_rest, name);
    }
}

/// The structure of text that stands as it is written is what the writer
/// of text elements pushes after the opening tag.
proof fn lemma_text_structure(
    text: Seq<char>,
    events: Seq<Pulled>,
    name: ElementNameView,
    tag: Seq<char>,
)
    requires
        spells_text(text, events, name) is Some,
    ensures
        seq![WriteEvent::StartElement(tag)] + structure(events) == simple_tag_events(tag, text)
            + structure(spells_text(text, events, name)->0),
{
    let after = events.skip(1);
    assert(after[0] == events[1]);
    assert(after.skip(1) =~= events.skip(2));
    assert(structure(events) == event_structure(events[0]) + structure(after));
    assert(structure(after) == event_structure(after[0]) + structure(after.skip(1)));
    assert(seq![WriteEvent::StartElement(tag)] + structure(events) =~= simple_tag_events(
        tag,
        text,
    ) + structure(events.skip(2)));
}

/// The structure of a value that stands as it is written is what the
/// writers push for it: with the opening tag before them, the events up to
/// the closing tag have the tags, the nesting and the text of the events of
/// the value.
pub proof fn written_element_structure(
    value: ValueView,
    events: Seq<Pulled>,
    name: ElementNameView,
    tag: Seq<char>,
)
    requires
        spells_element(value, events, name) is Some,
    ensures
        seq![WriteEvent::StartElement(tag)] + structure(events) == element_events(value, tag)
            + structure(spells_element(value, events, name)->0),
    decreases value, 1nat,
{
    let rest = spells_element(value, events, name)->0;
    match value {
        ValueView::Text(text) => {
            lemma_text_structure(text, events, name, tag);
        },
        ValueView::Boolean(flag) => {
            lemma_text_structure(boolean_text(flag), events, name, tag);
        },
        ValueView::Unsigned(number) => {
            lemma_text_structure(decimal(number as nat), events, name, tag);
        },
        ValueView::Record(fields) => {
            lemma_fields_structure(fields, 0, events, name);
            assert(fields_events(fields, 0) =~= Seq::<WriteEvent>::empty());
            assert(seq![WriteEvent::StartElement(tag)] + structure(events) =~= element_events(
                value,
                tag,
            ) + structure(rest));
        },
        ValueView::List { item_tag, items } => {
            lemma_items_structure(items, item_tag, 0, events, name);
            assert(items_events(items, item_tag, 0) =~= Seq::<WriteEvent>::empty());
            assert(seq![WriteEvent::StartElement(tag)] + structure(events) =~= element_events(
                value,
                tag,
            ) + structure(rest));
        },
    }
}

/// The structure of fields that stand as they are written, from `from`
/// on, completes the events of the fields before them to the events of all
/// fields and the closing tag.
proof fn lemma_fields_structure(
    fields: Seq<FieldValueView>,
    from: nat,
    events: Seq<Pulled>,
    name: ElementNameView,
)
    requires
        from <= fields.len(),
        spells_fields(fields, from, events, name) is Some,
    ensures
        fields_events(fields, from) + structure(events) == fields_events(fields, fields.len())
            + seq![WriteEvent::EndElement] + structure(
            spells_fields(fields, from, events, name)->0,
        ),
    decreases fields, fields.len() - from,
{
    let rest = spells_fields(fields, from, events, name)->0;
    assert(structure(events) == event_structure(events[0]) + structure(events.skip(1)));
    if from >= fields.len() {
        assert(fields_events(fields, from) + structure(events) =~= fields_events(
            fields,
            fields.len(),
        ) + seq![WriteEvent::EndElement] + structure(rest));
    } else {
        let event = first(events)->Ok_0;
        let child = event.kind->StartElement_name;
        let field = fields[from as int];
        let inner_rest = spells_element(field.value, events.skip(1), child)->0;
        written_element_structure(field.value, events.skip(1), child, field.tag);
        lemma_fields_structure(fields, from + 1, inner_rest, name);
        assert(fields_events(fields, from + 1) == fields_events(fields, from) + element_events(
            field.value,
            field.tag,
        ));
        assert(fields_events(fields, from) + structure(events) =~= fields_events(fields, from)
            + (seq![WriteEvent::StartElement(field.tag)] + structure(events.skip(1))));
        assert(fields_events(fields, from) + (element_events(field.value, field.tag) + structure(
            inner_rest,
        )) =~= fields_events(fields, from + 1) + structure(inner_rest));
    }
}

/// The structure of members that stand as they are written, from `from`
/// on, completes the events of the members before them to the events of
/// all members and the closing tag.
proof fn lemma_items_structure(
    items: Seq<ValueView>,
    item_tag: Seq<char>,
    from: nat,
    events: Seq<Pulled>,
    name: ElementNameView,
)
    requires
        from <= items.len(),
        spells_items(items, item_tag, from, events, name) is Some,
    ensures
        items_events(items, item_tag, from) + structure(events) == items_events(
            items,
            item_tag,
            items.len(),
        ) + seq![WriteEvent::EndElement] + structure(
            spells_items(items, item_tag, from, events, name)->0,
        ),
    decreases items, items.len() - from,
{
    let rest = spells_items(items, item_tag, from, events, name)->0;
    assert(structure(events) == event_structure(events[0]) + structure(events.skip(1)));
    if from >= items.len() {
        assert(items_events(items, item_tag, from) + structure(events) =~= items_events(
            items,
            item_tag,
            items.len(),
        ) + seq![WriteEvent::EndElement] + structure(rest));
    } else {
        let event = first(events)->Ok_0;
        let child = event.kind->StartElement_name;
        let member = items[from as int];
        let inner_rest = spells_element(member, events.skip(1), child)->0;
        written_element_structure(member, events.skip(1), child, item_tag);
        lemma_items_structure(items, item_tag, from + 1, inner_rest, name);
        assert(items_events(items, item_tag, from + 1) == items_events(items, item_tag, from)
            + element_events(member, item_tag));
        assert(items_events(items, item_tag, from) + structure(events) =~= items_events(
            items,
            item_tag,
            from,
        ) + (seq![WriteEvent::StartElement(item_tag)] + structure(events.skip(1))));
        assert(items_events(items, item_tag, from) + (element_events(member, item_tag)
            + structure(inner_rest)) =~= items_events(items, item_tag, from + 1) + structure(
            inner_rest,
        ));
    }
}

/// Reading and writing are inverse on the documents that the writers make:
/// such a document of a value of the schema's shape is read as that value,
/// and the events that the value is written as are the structure of the
/// document, tag for tag and text for text.
pub proof fn written_document_round_trip(
    schema: RecordSchema,
    value: ValueView,
    events: Seq<Pulled>,
)
    requires
        unambiguous(ElementType::Record(schema.fields)),
        conforms(value, ElementType::Record(schema.fields)),
        canonical_document(schema.tag@, value, events),
    ensures
        read_document(schema, events) == Ok::<ValueView, XmlReadErrorView>(value),
        element_events(value, schema.tag@) == structure(events),
{
    let root = events[1]->Ok_0;
    let name = root.kind->StartElement_name;
    let body = events.skip(2);
    let rest = spells_element(value, body, name)->0;
    assert(events.skip(1)[0] == events[1]);
    assert(events.skip(1).skip(1) =~= body);
    written_element_reads_back(ElementType::Record(schema.fields), value, body, name);
    written_element_structure(value, body, name, schema.tag@);
    assert(structure(events) == event_structure(events[0]) + structure(events.skip(1)));
    assert(structure(events.skip(1)) == event_structure(events[1]) + structure(body));
    assert(structure(rest) == event_structure(rest[0]) + structure(rest.skip(1)));
    assert(structure(rest.skip(1)) =~= Seq::<WriteEvent>::empty());
    assert(structure(events) =~= element_events(value, schema.tag@));
}

/// Whatever is read as an element of a type has the shape of that type.
pub proof fn read_element_conforms(ty: ElementType, events: Seq<Pulled>, name: ElementNameView)
    ensures
        read_element(ty, events, name).result matches Ok(value) ==> conforms(value, ty),
    decreases events.len(), 2nat,
{
    match ty {
        ElementType::Record(fields) => {
            let slots = empty_slots(fields@.len());
            lemma_read_fields_conform(fields@, events, name, slots);
            if let Ok(filled) = read_fields(fields@, events, name, slots).result {
                if let Ok(value) = assemble(fields@, filled, name) {
                    let parts = value->Record_0;
                    assert forall|i: int| 0 <= i < parts.len() implies (#[trigger] parts[i]).tag
                        == fields@[i].tag@ && conforms(parts[i].value, fields@[i].ty) by {
                        lemma_no_empty_slot(filled, 0, i);
                    }
                }
            }
        },
        ElementType::List { item_tag, item } => {
            lemma_read_items_conform(*item, events, name, item_tag@, Seq::empty());
        },
        _ => {},
    }
}

/// Whether each filled slot holds a value of the shape of its field.
pub open spec fn slots_conform(fields: Seq<Field>, slots: Seq<Option<ValueView>>) -> bool {
    &&& slots.len() == fields.len()
    &&& forall|i: int|
        0 <= i < slots.len() ==> ((#[trigger] slots[i]) matches Some(value) ==> conforms(
            value,
            fields[i].ty,
        ))
}

/// A scan of the children of a record fills slots with values of the shape
/// of their fields.
proof fn lemma_read_fields_conform(
    fields: Seq<Field>,
    events: Seq<Pulled>,
    name: ElementNameView,
    slots: Seq<Option<ValueView>>,
)
    requires
        slots_conform(fields, slots),
    ensures
        read_fields(fields, events, name, slots).result matches Ok(filled) ==> slots_conform(
            fields,
            filled,
        ),
    decreases events.len(), 0nat,
{
    if let Ok(event) = first(events) {
        if let XmlEventKindView::StartElement { name: child } = event.kind {
            if field_index(fields, child.local_name) is Some && events.len() > 0 {
                let index = field_index(fields, child.local_name)->0;
                lemma_field_index_found(fields, child.local_name, 0);
                let inner = read_element(fields[index].ty, events.skip(1), child);
                read_element_conforms(fields[index].ty, events.skip(1), child);
                if let Ok(value) = inner.result {
                    if inner.rest.len() < events.len() {
                        lemma_read_fields_conform(
                            fields,
                            inner.rest,
                            name,
                            slots.update(index, Some(value)),
                        );
                    }
                }
            }
        }
    }
}

/// A read of the members of a list yields values of the shape of the item
/// type.
proof fn lemma_read_items_conform(
    item: ElementType,
    events: Seq<Pulled>,
    name: ElementNameView,
    inner_tag: Seq<char>,
    items: Seq<ValueView>,
)
    requires
        forall|i: int| 0 <= i < items.len() ==> conforms(#[trigger] items[i], item),
    ensures
        read_items(item, events, name, inner_tag, items).result matches Ok(members) ==> forall|
            i: int,
        | 0 <= i < members.len() ==> conforms(#[trigger] members[i], item),
    decreases events.len(), 0nat,
{
    if let Ok(event) = first(events) {
        if let XmlEventKindView::StartElement { name: child } = event.kind {
            if child.local_name == inner_tag && events.len() > 0 {
                let inner = read_element(item, events.skip(1), child);
                read_element_conforms(item, events.skip(1), child);
                if let Ok(value) = inner.result {
                    if inner.rest.len() < events.len() {
                        lemma_read_items_conform(
                            item,
                            inner.rest,
                            name,
                            inner_tag,
                            items.push(value),
                        );
                    }
                }
            }
        }
    }
}

/// Whatever document is read as a value, the document that the writers
/// make of that value is read as the same value.
pub proof fn rewritten_document_reads_the_same(
    schema: RecordSchema,
    events: Seq<Pulled>,
    value: ValueView,
    rewritten: Seq<Pulled>,
)
    requires
        unambiguous(ElementType::Record(schema.fields)),
        read_document(schema, events) == Ok::<ValueView, XmlReadErrorView>(value),
        canonical_document(schema.tag@, value, rewritten),
    ensures
        read_document(schema, rewritten) == read_document(schema, events),
        element_events(value, schema.tag@) == structure(rewritten),
{
    let root = first(after_first(events))->Ok_0;
    let name = root.kind->StartElement_name;
    read_element_conforms(
        ElementType::Record(schema.fields),
        after_first(after_first(events)),
        name,
    );
    written_document_round_trip(schema, value, rewritten);
}

/// Whether `events` begins with the fields from `from` on but for the
/// field `omitted`, each as an element under its tag and all in order, and
/// the closing tag of `name`; if so, what follows them.
pub open spec fn spells_fields_without(
    fields: Seq<FieldValueView>,
    omitted: int,
    from: nat,
    events: Seq<Pulled>,
    name: ElementNameView,
) -> Option<Seq<Pulled>>
    decreases fields, fields.len() - from,
{
    if from >= fields.len() {
        if events.len() >= 1 && is_event(events[0], XmlEventKindView::EndElement { name }) {
            Some(events.skip(1))
        } else {
            None
        }
    } else if from == omitted {
        spells_fields_without(fields, omitted, from + 1, events, name)
    } else {
        match first(events) {
            Ok(event) => match event.kind {
                XmlEventKindView::StartElement { name: child } if events.len() >= 1
                    && child.local_name == fields[from as int].tag => match spells_element(
                    fields[from as int].value,
                    events.skip(1),
                    child,
                ) {
                    Some(rest) => spells_fields_without(fields, omitted, from + 1, rest, name),
                    None => None,
                },
                _ => None,
            },
            Err(_) => None,
        }
    }
}

/// Whether `events` is the document that the writers make of the record
/// `value` under the root tag `tag`, but for the element of the field
/// `omitted`, which is left out.
pub open spec fn canonical_document_without(
    tag: Seq<char>,
    value: ValueView,
    omitted: int,
    events: Seq<Pulled>,
) -> bool {
    &&& value is Record
    &&& 0 <= omitted < value->Record_0.len()
    &&& events.len() >= 2
    &&& is_event(events[0], XmlEventKindView::StartDocument)
    &&& events[1] matches Ok(root)
    &&& root.kind matches XmlEventKindView::StartElement { name }
    &&& name.local_name == tag
    &&& spells_fields_without(value->Record_0, omitted, 0, events.skip(2), name) is Some
}

/// The slots of a record whose first `count` fields are read, but for the
/// field `omitted`.
pub open spec fn slots_filled_without(
    fields: Seq<FieldValueView>,
    count: nat,
    omitted: int,
) -> Seq<Option<ValueView>> {
    Seq::new(
        fields.len(),
        |i: int|
            if i < count && i != omitted {
                Some(fields[i].value)
            } else {
                None
            },
    )
}

/// The fields of a record that stand as they are written, from `from` on
/// and but for one, are read into their slots, and the slot of the omitted
/// field stays empty.
proof fn lemma_fields_without_read_back(
    ty: ElementType,
    fields: Seq<FieldValueView>,
    omitted: int,
    from: nat,
    events: Seq<Pulled>,
    name: ElementNameView,
)
    requires
        ty is Record,
        unambiguous(ty),
        conforms(ValueView::Record(fields), ty),
        from <= fields.len(),
        spells_fields_without(fields, omitted, from, events, name) is Some,
    ensures
        read_fields(ty->Record_0@, events, name, slots_filled_without(fields, from, omitted))
            == (Parsed {
            result: Ok(slots_filled_without(fields, fields.len(), omitted)),
            rest: spells_fields_without(fields, omitted, from, events, name)->0,
        }),
    decreases fields.len() - from,
{
    let declared = ty->Record_0@;
    if from >= fields.len() {
    } else if from == omitted {
        assert(slots_filled_without(fields, from, omitted) =~= slots_filled_without(
            fields,
            from + 1,
            omitted,
        ));
        lemma_fields_without_read_back(ty, fields, omitted, from + 1, events, name);
    } else {
        let event = first(events)->Ok_0;
        let child = event.kind->StartElement_name;
        let inner_rest = spells_element(fields[from as int].value, events.skip(1), child)->0;
        lemma_field_index_distinct(declared, from as int, 0);
        assert(fields[from as int].tag == declared[from as int].tag@);
        written_element_reads_back(
            declared[from as int].ty,
            fields[from as int].value,
            events.skip(1),
            child,
        );
        lemma_element_consumes(declared[from as int].ty, events.skip(1), child);
        assert(slots_filled_without(fields, from, omitted).update(
            from as int,
            Some(fields[from as int].value),
        ) =~= slots_filled_without(fields, from + 1, omitted));
        lemma_fields_without_read_back(ty, fields, omitted, from + 1, inner_rest, name);
    }
}

/// The first empty slot of a record whose fields are all read but for one
/// is the slot of that one.
proof fn lemma_first_empty_is_omitted(fields: Seq<FieldValueView>, omitted: int, from: int)
    requires
        0 <= from <= omitted < fields.len(),
    ensures
        first_empty_from(slots_filled_without(fields, fields.len(), omitted), from) == Some(
            omitted,
        ),
    decreases omitted - from,
{
    if from < omitted {
        lemma_first_empty_is_omitted(fields, omitted, from + 1);
    }
}

/// A document that leaves out the element of one declared field, and is as
/// the writers make it otherwise, is not read: the read fails and names the
/// root element and the tag of the field that is left out.
pub proof fn omitted_field_is_named(
    schema: RecordSchema,
    value: ValueView,
    omitted: int,
    events: Seq<Pulled>,
)
    requires
        unambiguous(ElementType::Record(schema.fields)),
        conforms(value, ElementType::Record(schema.fields)),
        canonical_document_without(schema.tag@, value, omitted, events),
    ensures
        read_document(schema, events) == Err::<ValueView, XmlReadErrorView>(
            crate::grammar::required_missing(
                schema.fields@[omitted].tag@,
                events[1]->Ok_0.kind->StartElement_name.display(),
            ),
        ),
{
    let name = events[1]->Ok_0.kind->StartElement_name;
    let body = events.skip(2);
    let fields = value->Record_0;
    assert(events.skip(1)[0] == events[1]);
    assert(events.skip(1).skip(1) =~= body);
    assert(slots_filled_without(fields, 0, omitted) =~= empty_slots(schema.fields@.len()));
    lemma_fields_without_read_back(
        ElementType::Record(schema.fields),
        fields,
        omitted,
        0,
        body,
        name,
    );
    lemma_first_empty_is_omitted(fields, omitted, 0);
}

} // verus!
