//! What writing means: the events that a value is written as.

use vstd::prelude::*;

use crate::codec::{boolean_text, decimal};
use crate::schema::{FieldValueView, ValueView};
use crate::writer::{lemma_depth_push, open_depth, WriteEvent};

verus! {

/// The events of an element `<tag>content</tag>`.
pub open spec fn simple_tag_events(tag: Seq<char>, content: Seq<char>) -> Seq<WriteEvent> {
    seq![WriteEvent::StartElement(tag), WriteEvent::Characters(content), WriteEvent::EndElement]
}

/// The events of `value` written as an element under `tag`: the opening
/// tag, the content, the closing tag. Text, booleans and integers are written
/// as character data; the fields of a record follow each other in
/// declaration order, each under its own tag; the members of a list follow
/// each other, each under the item tag.
pub open spec fn element_events(value: ValueView, tag: Seq<char>) -> Seq<WriteEvent>
    decreases value, 0nat,
{
    match value {
        ValueView::Text(text) => simple_tag_events(tag, text),
        ValueView::Boolean(value) => simple_tag_events(tag, boolean_text(value)),
        ValueView::Unsigned(value) => simple_tag_events(tag, decimal(value as nat)),
        ValueView::Record(fields) => seq![WriteEvent::StartElement(tag)] + fields_events(
            fields,
            fields.len(),
        ) + seq![WriteEvent::EndElement],
        ValueView::List { item_tag, items } => seq![WriteEvent::StartElement(tag)] + items_events(
            items,
            item_tag,
            items.len(),
        ) + seq![WriteEvent::EndElement],
    }
}

/// The events of the first `count` fields of a record.
pub open spec fn fields_events(fields: Seq<FieldValueView>, count: nat) -> Seq<WriteEvent>
    decreases fields, count,
{
    if count == 0 || count > fields.len() {
        Seq::empty()
    } else {
        fields_events(fields, (count - 1) as nat) + element_events(
            fields[count - 1].value,
            fields[count - 1].tag,
        )
    }
}

/// The events of the first `count` members of a list.
pub open spec fn items_events(items: Seq<ValueView>, item_tag: Seq<char>, count: nat) -> Seq<
    WriteEvent,
>
    decreases items, count,
{
    if count == 0 || count > items.len() {
        Seq::empty()
    } else {
        items_events(items, item_tag, (count - 1) as nat) + element_events(
            items[count - 1],
            item_tag,
        )
    }
}

/// Whether `value` has anything to write. A list has if one of its members
/// has; every other value has.
pub open spec fn writes_content(value: ValueView) -> bool
    decreases value,
{
    match value {
        ValueView::List { items, .. } => exists|i: int|
            0 <= i < items.len() && writes_content(#[trigger] items[i]),
        _ => true,
    }
}

/// Whether a writer that had accepted `before` and was to accept `events`
/// broke off on the way: it has accepted `after`, which is `before` and a
/// beginning of `events`, but not all of them.
pub open spec fn broke_off(
    before: Seq<WriteEvent>,
    after: Seq<WriteEvent>,
    events: Seq<WriteEvent>,
) -> bool {
    &&& before.len() <= after.len() < before.len() + events.len()
    &&& after == (before + events).take(after.len() as int)
}

/// A writer that broke off inside a part of what it was to accept broke
/// off inside the whole.
pub proof fn lemma_broke_off_inside(
    before: Seq<WriteEvent>,
    after: Seq<WriteEvent>,
    lead: Seq<WriteEvent>,
    part: Seq<WriteEvent>,
    whole: Seq<WriteEvent>,
)
    requires
        broke_off(before + lead, after, part),
        lead.len() + part.len() <= whole.len(),
        whole.take((lead.len() + part.len()) as int) == lead + part,
    ensures
        broke_off(before, after, whole),
{
    let reached = after.len() as int;
    let through = (before + lead) + part;
    let covered = (lead.len() + part.len()) as int;
    assert forall|i: int| 0 <= i < reached implies after[i] == (before + whole).take(reached)[i] by {
        assert(after[i] == through.take(reached)[i]);
        assert(through.take(reached)[i] == through[i]);
        if i >= before.len() {
            let inside = i - before.len();
            assert(through[i] == (lead + part)[inside]);
            assert(whole.take(covered)[inside] == whole[inside]);
            assert((before + whole)[i] == whole[inside]);
        } else {
            assert(through[i] == before[i]);
        }
    }
    assert(after =~= (before + whole).take(reached));
}

/// A writer that broke off inside a child of an element broke off inside
/// the element: the element pushes `head`, then `all` for its children, of
/// which `done` were accepted and `part` was to follow, then `tail`.
pub proof fn lemma_broke_off_in_child(
    before: Seq<WriteEvent>,
    after: Seq<WriteEvent>,
    head: Seq<WriteEvent>,
    done: Seq<WriteEvent>,
    part: Seq<WriteEvent>,
    all: Seq<WriteEvent>,
    tail: Seq<WriteEvent>,
)
    requires
        broke_off(before + head + done, after, part),
        done.len() + part.len() <= all.len(),
        all.take((done.len() + part.len()) as int) == done + part,
    ensures
        broke_off(before, after, head + all + tail),
{
    let whole = head + all + tail;
    let lead = head + done;
    let covered = (lead.len() + part.len()) as int;
    assert(before + head + done =~= before + lead);
    assert forall|i: int| 0 <= i < covered implies whole.take(covered)[i] == (lead + part)[i] by {
        if i >= head.len() {
            assert(all.take((done.len() + part.len()) as int)[i - head.len()] == all[i
                - head.len()]);
        }
    }
    assert(whole.take(covered) =~= lead + part);
    lemma_broke_off_inside(before, after, lead, part, whole);
}

/// A writer that was refused the closing tag of an element, after all the
/// events before it, broke off inside the element.
pub proof fn lemma_broke_off_at_end(
    before: Seq<WriteEvent>,
    head: Seq<WriteEvent>,
    all: Seq<WriteEvent>,
    tail: Seq<WriteEvent>,
)
    requires
        tail.len() > 0,
    ensures
        broke_off(before, before + head + all, head + all + tail),
{
    let after = before + head + all;
    assert(after =~= (before + (head + all + tail)).take(after.len() as int));
}

/// The events of an element leave as many elements open as were open
/// before them.
pub proof fn lemma_element_depth(before: Seq<WriteEvent>, value: ValueView, tag: Seq<char>)
    ensures
        open_depth(before + element_events(value, tag)) == open_depth(before),
    decreases value, 1nat,
{
    let start = WriteEvent::StartElement(tag);
    let opened = before.push(start);
    lemma_depth_push(before, start);
    match value {
        ValueView::Record(fields) => {
            lemma_fields_depth(opened, fields, fields.len());
            let inside = opened + fields_events(fields, fields.len());
            lemma_depth_push(inside, WriteEvent::EndElement);
            assert(before + element_events(value, tag) =~= inside.push(WriteEvent::EndElement));
        },
        ValueView::List { item_tag, items } => {
            lemma_items_depth(opened, items, item_tag, items.len());
            let inside = opened + items_events(items, item_tag, items.len());
            lemma_depth_push(inside, WriteEvent::EndElement);
            assert(before + element_events(value, tag) =~= inside.push(WriteEvent::EndElement));
        },
        _ => {
            let text = element_events(value, tag)[1];
            lemma_depth_push(opened, text);
            lemma_depth_push(opened.push(text), WriteEvent::EndElement);
            assert(before + element_events(value, tag) =~= opened.push(text).push(
                WriteEvent::EndElement,
            ));
        },
    }
}

/// The events of the first fields of a record leave as many elements open
/// as were open before them.
pub proof fn lemma_fields_depth(before: Seq<WriteEvent>, fields: Seq<FieldValueView>, count: nat)
    requires
        count <= fields.len(),
    ensures
        open_depth(before + fields_events(fields, count)) == open_depth(before),
    decreases fields, count,
{
    if count == 0 {
        assert(before + fields_events(fields, count) =~= before);
    } else {
        let done = (count - 1) as nat;
        lemma_fields_depth(before, fields, done);
        lemma_element_depth(
            before + fields_events(fields, done),
            fields[count - 1].value,
            fields[count - 1].tag,
        );
        assert(before + fields_events(fields, count) =~= (before + fields_events(fields, done))
            + element_events(fields[count - 1].value, fields[count - 1].tag));
    }
}

/// The events of the first members of a list leave as many elements open
/// as were open before them.
pub proof fn lemma_items_depth(
    before: Seq<WriteEvent>,
    items: Seq<ValueView>,
    item_tag: Seq<char>,
    count: nat,
)
    requires
        count <= items.len(),
    ensures
        open_depth(before + items_events(items, item_tag, count)) == open_depth(before),
    decreases items, count,
{
    if count == 0 {
        assert(before + items_events(items, item_tag, count) =~= before);
    } else {
        let done = (count - 1) as nat;
        lemma_items_depth(before, items, item_tag, done);
        lemma_element_depth(before + items_events(items, item_tag, done), items[count - 1], item_tag);
        assert(before + items_events(items, item_tag, count) =~= (before + items_events(
            items,
            item_tag,
            done,
        )) + element_events(items[count - 1], item_tag));
    }
}

} // verus!
