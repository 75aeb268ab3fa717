//! The readers and writers of elements: an element of a declared type is
//! read from the tokenizer, its opening tag being consumed already, and a
//! value is written under the tag that its container gives it.

use vstd::prelude::*;

use crate::codec::{boolean_str, format_decimal, parse_boolean, parse_unsigned};
use crate::errors::{XmlReadError, XmlWriteError};
use crate::event::{
    attributes_view, Attribute, ElementName, Namespace, XmlEvent, XmlEventKind,
};
use crate::grammar;
use crate::grammar::{
    assemble, empty_slots, first_empty_from, lemma_element_consumes, lemma_no_empty_slot,
    value_outcome, RecordStepView,
};
use crate::layout::{
    element_events, fields_events, items_events, lemma_fields_depth, lemma_items_depth,
    writes_content,
};
use crate::reader::{pending, EventReader};
use crate::schema::{
    field_index, field_index_from, ElementType, Field, FieldValue, FieldValueView, Value,
    ValueView,
};
use crate::writer::{indents, lemma_depth_push, written, EventSink, WriteEvent};
use crate::xml_utils::{
    read_list_tag, read_simple_tag, to_xml_read_error, to_xml_write_error,
    unexpected_element_error, write_simple_tag,
};

verus! {

/// The mathematical values of the slots of a record.
pub open spec fn slots_view(slots: Seq<Option<Value>>) -> Seq<Option<ValueView>> {
    Seq::new(
        slots.len(),
        |i: int|
            match slots[i] {
                Some(value) => Some(value@),
                None => None,
            },
    )
}

/// What the scan of a record does with one event.
#[derive(Debug, PartialEq, Eq)]
pub enum RecordStep {
    /// The event opens the child `name`, which stands for the field at
    /// `index`, with the attributes and namespace bindings of its opening
    /// tag.
    Field { index: usize, name: ElementName, attributes: Vec<Attribute>, namespace: Namespace },
    /// The event closes the record.
    Closed,
}

impl View for RecordStep {
    type V = RecordStepView;

    open spec fn view(&self) -> RecordStepView {
        match self {
            RecordStep::Field { index, name, attributes, namespace } => RecordStepView::Field {
                index: *index as int,
                name: name@,
                attributes: attributes_view(attributes@),
                namespace: namespace@,
            },
            RecordStep::Closed => RecordStepView::Closed,
        }
    }
}

/// The mathematical value of a step of the scan of a record.
pub open spec fn record_step_outcome(result: Result<RecordStep, XmlReadError>) -> Result<
    RecordStepView,
    crate::errors::XmlReadErrorView,
> {
    match result {
        Ok(step) => Ok(step@),
        Err(error) => Err(error@),
    }
}

/// The first field whose tag is `tag`, if there is one.
pub fn find_field(fields: &Vec<Field>, tag: &String) -> (found: Option<usize>)
    ensures
        match found {
            Some(index) => index < fields@.len() && field_index(fields@, tag@) == Some(
                index as int,
            ),
            None => field_index(fields@, tag@) is None,
        },
{
    let mut at: usize = 0;
    while at < fields.len()
        invariant
            at <= fields.len(),
            field_index(fields@, tag@) == field_index_from(fields@, tag@, at as int),
        decreases fields.len() - at,
    {
        if fields[at].tag == *tag {
            return Some(at);
        }
        at += 1;
    }
    None
}

/// Decides what the scan of the record `element_name` does with `event`:
/// an opening tag whose local name is the tag of a declared field opens
/// that field, the first one with that tag; the closing tag of the record
/// closes it; any other event is reported as out of place in the record.
pub fn record_step(fields: &Vec<Field>, element_name: &ElementName, event: XmlEvent) -> (result:
    Result<RecordStep, XmlReadError>)
    ensures
        record_step_outcome(result) == grammar::record_step(fields@, element_name@, event@),
        result matches Ok(RecordStep::Field { index, .. }) ==> index < fields@.len(),
{
    match event.kind {
        XmlEventKind::StartElement { name } => match find_field(fields, &name.local_name) {
            Some(index) => Ok(
                RecordStep::Field {
                    index,
                    name,
                    attributes: event.attributes,
                    namespace: event.namespace,
                },
            ),
            None => {
                let shown = element_name.to_string();
                Err(
                    unexpected_element_error(
                        shown.as_str(),
                        XmlEvent { kind: XmlEventKind::StartElement { name }, attributes: event.attributes, namespace: event.namespace, shown: event.shown },
                    ),
                )
            },
        },
        XmlEventKind::EndElement { name } => {
            if name.same_as(element_name) {
                Ok(RecordStep::Closed)
            } else {
                let shown = element_name.to_string();
                Err(
                    unexpected_element_error(
                        shown.as_str(),
                        XmlEvent { kind: XmlEventKind::EndElement { name }, attributes: event.attributes, namespace: event.namespace, shown: event.shown },
                    ),
                )
            }
        },
        kind => {
            let shown = element_name.to_string();
            Err(unexpected_element_error(shown.as_str(), XmlEvent { kind, attributes: event.attributes, namespace: event.namespace, shown: event.shown }))
        },
    }
}

/// Reads an element of the type `ty`, after its opening tag
/// `element_name`, through its closing tag. The attributes and the namespace
/// bindings of the opening tag are handed over with its name; no declared
/// type makes anything of them.
pub fn read_element(
    ty: &ElementType,
    reader: &mut EventReader,
    element_name: &ElementName,
    _element_attributes: &Vec<Attribute>,
    _element_namespace: &Namespace,
) -> (result: Result<Value, XmlReadError>)
    ensures
        value_outcome(result) == grammar::read_element(
            *ty,
            pending(*old(reader)),
            element_name@,
        ).result,
        result is Ok ==> pending(*final(reader)) == grammar::read_element(
            *ty,
            pending(*old(reader)),
            element_name@,
        ).rest,
    decreases pending(*old(reader)).len(), 2nat,
{
    match ty {
        ElementType::Text => match read_simple_tag(reader, element_name) {
            Ok(text) => Ok(Value::Text(text)),
            Err(error) => Err(error),
        },
        ElementType::Boolean => match read_simple_tag(reader, element_name) {
            Ok(text) => match parse_boolean(text, element_name) {
                Ok(value) => Ok(Value::Boolean(value)),
                Err(error) => Err(error),
            },
            Err(error) => Err(error),
        },
        ElementType::Unsigned => match read_simple_tag(reader, element_name) {
            Ok(text) => match parse_unsigned(text, element_name) {
                Ok(value) => Ok(Value::Unsigned(value)),
                Err(error) => Err(error),
            },
            Err(error) => Err(error),
        },
        ElementType::Record(fields) => read_record(fields, reader, element_name),
        ElementType::List { item_tag, item } => match read_list_tag(
            reader,
            element_name,
            item_tag.as_str(),
            item,
        ) {
            Ok(items) => {
                let ghost read = crate::schema::values_view(items@);
                let value = Value::List { item_tag: item_tag.clone(), items };
                assert(value@->items =~= read);
                Ok(value)
            },
            Err(error) => Err(error),
        },
    }
}

/// Reads a record with the declared `fields`, after its opening tag
/// `element_name`, through its closing tag. The children may come in any
/// order; a child that stands for no field fails the read, as does a field
/// that has no child. Of two children for one field the later one counts.
#[verifier::loop_isolation(false)]
pub fn read_record(fields: &Vec<Field>, reader: &mut EventReader, element_name: &ElementName) -> (result:
    Result<Value, XmlReadError>)
    ensures
        value_outcome(result) == grammar::read_record(
            fields@,
            pending(*old(reader)),
            element_name@,
        ).result,
        result is Ok ==> pending(*final(reader)) == grammar::read_record(
            fields@,
            pending(*old(reader)),
            element_name@,
        ).rest,
    decreases pending(*old(reader)).len(), 1nat,
{
    let shown = element_name.to_string();
    let mut slots: Vec<Option<Value>> = Vec::new();
    while slots.len() < fields.len()
        invariant
            slots@.len() <= fields@.len(),
            slots_view(slots@) =~= empty_slots(slots@.len() as nat),
        decreases fields@.len() - slots@.len(),
    {
        let ghost filled = slots@;
        slots.push(None);
        assert(slots@ =~= filled.push(None));
        assert forall|i: int| 0 <= i < slots@.len() implies slots_view(slots@)[i] is None by {
            if i < filled.len() {
                assert(slots_view(filled)[i] is None);
            }
        }
    }
    let ghost start = pending(*reader);
    let mut got_end_tag = false;
    while !got_end_tag
        invariant
            slots@.len() == fields@.len(),
            shown@ == element_name@.display(),
            pending(*reader).len() <= start.len(),
            start == pending(*old(reader)),
            !got_end_tag ==> grammar::read_fields(
                fields@,
                start,
                element_name@,
                empty_slots(fields@.len() as nat),
            ) == grammar::read_fields(
                fields@,
                pending(*reader),
                element_name@,
                slots_view(slots@),
            ),
            got_end_tag ==> grammar::read_fields(
                fields@,
                start,
                element_name@,
                empty_slots(fields@.len() as nat),
            ) == (grammar::Parsed { result: Ok(slots_view(slots@)), rest: pending(*reader) }),
        decreases pending(*reader).len() + (if got_end_tag { 0nat } else { 1nat }),
    {
        let ghost before = pending(*reader);
        let ghost filled = slots_view(slots@);
        let event = match reader.next() {
            Ok(event) => event,
            Err(error) => {
                return Err(to_xml_read_error(shown.as_str(), error));
            },
        };
        match record_step(fields, element_name, event) {
            Ok(RecordStep::Field { index, name: child, attributes, namespace }) => {
                let value = match read_element(
                    &fields[index].ty,
                    reader,
                    &child,
                    &attributes,
                    &namespace,
                ) {
                    Ok(value) => value,
                    Err(error) => {
                        return Err(error);
                    },
                };
                proof {
                    lemma_element_consumes(fields@[index as int].ty, before.skip(1), child@);
                }
                slots[index] = Some(value);
                assert(slots_view(slots@) =~= filled.update(index as int, Some(value@)));
            },
            Ok(RecordStep::Closed) => {
                got_end_tag = true;
            },
            Err(error) => {
                return Err(error);
            },
        }
    }
    assemble_record(fields, slots, element_name)
}

/// Makes the record of the filled slots, or reports the first declared
/// field whose slot is still empty.
#[verifier::loop_isolation(false)]
fn assemble_record(fields: &Vec<Field>, slots: Vec<Option<Value>>, element_name: &ElementName) -> (result:
    Result<Value, XmlReadError>)
    requires
        slots@.len() == fields@.len(),
    ensures
        value_outcome(result) == assemble(fields@, slots_view(slots@), element_name@),
{
    let mut slots = slots;
    let ghost filled = slots_view(slots@);
    let mut at: usize = 0;
    while at < slots.len()
        invariant
            at <= slots@.len(),
            filled == slots_view(slots@),
            first_empty_from(filled, 0) == first_empty_from(filled, at as int),
        decreases slots@.len() - at,
    {
        if slots[at].is_none() {
            return Err(
                XmlReadError::RequiredDataMissing {
                    required_field: fields[at].tag.clone(),
                    element: element_name.to_string(),
                },
            );
        }
        at += 1;
    }
    let mut record: Vec<FieldValue> = Vec::new();
    let mut at: usize = 0;
    while at < slots.len()
        invariant
            at <= slots@.len(),
            slots@.len() == fields@.len(),
            filled.len() == slots@.len(),
            first_empty_from(filled, 0) is None,
            forall|j: int| at <= j < slots@.len() ==> slots_view(slots@)[j] == filled[j],
            record@.len() == at,
            forall|j: int|
                0 <= j < at ==> (#[trigger] record@[j])@ == (FieldValueView {
                    tag: fields@[j].tag@,
                    value: filled[j]->0,
                }),
        decreases slots@.len() - at,
    {
        proof {
            lemma_no_empty_slot(filled, 0, at as int);
            assert(slots_view(slots@)[at as int] == filled[at as int]);
        }
        let ghost kept = slots_view(slots@);
        let taken = slots[at].take();
        assert forall|j: int| at < j < slots@.len() implies slots_view(slots@)[j] == filled[j] by {
            assert(kept[j] == filled[j]);
        }
        match taken {
            Some(value) => {
                record.push(FieldValue { tag: fields[at].tag.clone(), value });
            },
            None => {},
        }
        at += 1;
    }
    let value = Value::Record(record);
    assert(value@->Record_0 =~= assemble(fields@, filled, element_name@)->Ok_0->Record_0);
    Ok(value)
}

/// Writes `value` as an element under `tag`: the opening tag, the content,
/// the closing tag. The emitter accepts all its events.
#[verifier::loop_isolation(false)]
pub fn write_element(value: &Value, writer: &mut EventSink, tag: &str) -> (result: Result<
    (),
    XmlWriteError,
>)
    ensures
        indents(*final(writer)) == indents(*old(writer)),
        result is Ok,
        written(*final(writer)) == written(*old(writer)) + element_events(value@, tag@),
    decreases value,
{
    let ghost before = written(*writer);
    let ghost start = seq![WriteEvent::StartElement(tag@)];
    match value {
        Value::Text(text) => write_simple_tag(writer, tag, text.as_str()),
        Value::Boolean(flag) => write_simple_tag(writer, tag, boolean_str(*flag)),
        Value::Unsigned(number) => {
            let digits = format_decimal(*number);
            write_simple_tag(writer, tag, digits.as_str())
        },
        Value::Record(fields) => {
            match writer.start_element(tag) {
                Ok(_) => {},
                Err(error) => {
                    return Err(to_xml_write_error(tag, error));
                },
            }
            let ghost parts = value@->Record_0;
            let mut at: usize = 0;
            proof {
                lemma_depth_push(before, start[0]);
                assert(fields_events(parts, 0) =~= Seq::<WriteEvent>::empty());
                assert(written(*writer) =~= before + start + fields_events(parts, 0));
            }
            while at < fields.len()
                invariant
                    at <= fields@.len(),
                    parts.len() == fields@.len(),
                    indents(*writer) == indents(*old(writer)),
                    written(*writer) == before + start + fields_events(parts, at as nat),
                decreases fields@.len() - at,
            {
                proof {
                    vstd::std_specs::vec::axiom_vec_index_decreases(*fields, at as int);
                }
                let field = &fields[at];
                match write_element(&field.value, writer, field.tag.as_str()) {
                    Ok(_) => {},
                    Err(error) => {
                        return Err(error);
                    },
                }
                assert(written(*writer) =~= before + start + fields_events(
                    parts,
                    (at + 1) as nat,
                ));
                at += 1;
            }
            proof {
                lemma_fields_depth(before + start, parts, parts.len());
                assert(before + start =~= before.push(start[0]));
            }
            match writer.end_element() {
                Ok(_) => {},
                Err(error) => {
                    return Err(to_xml_write_error(tag, error));
                },
            }
            assert(written(*writer) =~= before + element_events(value@, tag@));
            Ok(())
        },
        Value::List { item_tag, items } => {
            match writer.start_element(tag) {
                Ok(_) => {},
                Err(error) => {
                    return Err(to_xml_write_error(tag, error));
                },
            }
            let ghost members = value@->items;
            let mut at: usize = 0;
            proof {
                lemma_depth_push(before, start[0]);
                assert(items_events(members, item_tag@, 0) =~= Seq::<WriteEvent>::empty());
                assert(written(*writer) =~= before + start + items_events(members, item_tag@, 0));
            }
            while at < items.len()
                invariant
                    at <= items@.len(),
                    members.len() == items@.len(),
                    indents(*writer) == indents(*old(writer)),
                    written(*writer) == before + start + items_events(
                        members,
                        item_tag@,
                        at as nat,
                    ),
                decreases items@.len() - at,
            {
                proof {
                    vstd::std_specs::vec::axiom_vec_index_decreases(*items, at as int);
                }
                match write_element(&items[at], writer, item_tag.as_str()) {
                    Ok(_) => {},
                    Err(error) => {
                        return Err(error);
                    },
                }
                assert(written(*writer) =~= before + start + items_events(
                    members,
                    item_tag@,
                    (at + 1) as nat,
                ));
                at += 1;
            }
            proof {
                lemma_items_depth(before + start, members, item_tag@, members.len());
                assert(before + start =~= before.push(start[0]));
            }
            match writer.end_element() {
                Ok(_) => {},
                Err(error) => {
                    return Err(to_xml_write_error(tag, error));
                },
            }
            assert(written(*writer) =~= before + element_events(value@, tag@));
            Ok(())
        },
    }
}

impl Value {
    /// Whether this value has anything to write: for a list, whether one of
    /// its members has; for any other value, always.
    #[verifier::loop_isolation(false)]
    pub fn will_write(&self) -> (result: bool)
        ensures
            result == writes_content(self@),
        decreases self,
    {
        match self {
            Value::List { items, .. } => {
                let ghost members = self@->items;
                let mut at: usize = 0;
                while at < items.len()
                    invariant
                        at <= items@.len(),
                        members.len() == items@.len(),
                        forall|j: int| 0 <= j < at ==> !writes_content(#[trigger] members[j]),
                    decreases items@.len() - at,
                {
                    proof {
                        vstd::std_specs::vec::axiom_vec_index_decreases(*items, at as int);
                    }
                    if items[at].will_write() {
                        assert(writes_content(members[at as int]));
                        return true;
                    }
                    at += 1;
                }
                false
            },
            _ => true,
        }
    }
}

} // verus!
