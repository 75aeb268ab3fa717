//! The order of the children of a record is free: what a record is read as
//! does not depend on the order in which its children stand.

use vstd::prelude::*;

use crate::event::{ElementNameView, XmlEventKindView, XmlEventView};
use crate::grammar::{
    assemble, empty_slots, first, first_empty_from, lemma_element_consumes,
    lemma_fields_consume, lemma_items_consume, list_step, read_element, read_fields, read_items,
    read_record, record_step, simple_tag, ListStepView, Parsed, RecordStepView,
};
use crate::reader::Pulled;
use crate::schema::{ElementType, Field, FieldValueView, ValueView};

verus! {

/// The events that a read took, with `other` behind them in place of what
/// the read left.
pub open spec fn taken_then(events: Seq<Pulled>, rest: Seq<Pulled>, other: Seq<Pulled>) -> Seq<
    Pulled,
> {
    events.take(events.len() - rest.len()) + other
}

/// A read of text looks at its own two events only: with anything else
/// behind them it yields the same, and leaves what is behind them.
pub proof fn lemma_simple_tag_frame(events: Seq<Pulled>, name: ElementNameView, other: Seq<Pulled>)
    requires
        simple_tag(events, name).result is Ok,
    ensures
        simple_tag(taken_then(events, simple_tag(events, name).rest, other), name) == (Parsed {
            result: simple_tag(events, name).result,
            rest: other,
        }),
{
    let framed = taken_then(events, simple_tag(events, name).rest, other);
    assert(events.len() >= 2);
    assert(events.skip(1).skip(1) =~= events.skip(2));
    assert(events.skip(1)[0] == events[1]);
    assert(framed[0] == events[0]);
    assert(framed.skip(1)[0] == events[1]);
    assert(framed.skip(1).skip(1) =~= other);
}

/// A read of an element looks at the events of the element only: with
/// anything else behind them it yields the same, and leaves what is behind
/// them.
pub proof fn lemma_element_frame(
    ty: ElementType,
    events: Seq<Pulled>,
    name: ElementNameView,
    other: Seq<Pulled>,
)
    requires
        read_element(ty, events, name).result is Ok,
    ensures
        read_element(ty, taken_then(events, read_element(ty, events, name).rest, other), name)
            == (Parsed { result: read_element(ty, events, name).result, rest: other }),
    decreases events.len(), 2nat,
{
    match ty {
        ElementType::Record(fields) => {
            lemma_fields_frame(fields@, events, name, empty_slots(fields@.len()), other);
        },
        ElementType::List { item_tag, item } => {
            lemma_items_frame(*item, events, name, item_tag@, Seq::empty(), other);
        },
        _ => {
            lemma_simple_tag_frame(events, name, other);
        },
    }
}

/// A scan of the children of a record looks at the events up to the
/// closing tag only.
pub proof fn lemma_fields_frame(
    fields: Seq<Field>,
    events: Seq<Pulled>,
    name: ElementNameView,
    slots: Seq<Option<ValueView>>,
    other: Seq<Pulled>,
)
    requires
        read_fields(fields, events, name, slots).result is Ok,
    ensures
        read_fields(
            fields,
            taken_then(events, read_fields(fields, events, name, slots).rest, other),
            name,
            slots,
        ) == (Parsed { result: read_fields(fields, events, name, slots).result, rest: other }),
    decreases events.len(), 0nat,
{
    let whole = read_fields(fields, events, name, slots);
    let framed = taken_then(events, whole.rest, other);
    lemma_fields_consume(fields, events, name, slots);
    let event = first(events)->Ok_0;
    assert(events.len() > 0);
    match record_step(fields, name, event)->Ok_0 {
        RecordStepView::Closed => {
            assert(framed[0] == events[0]);
            assert(framed.skip(1) =~= other);
        },
        RecordStepView::Field { index, name: child, .. } => {
            let inside = events.skip(1);
            let inner = read_element(fields[index].ty, inside, child);
            let filled = slots.update(index, Some(inner.result->Ok_0));
            lemma_element_consumes(fields[index].ty, inside, child);
            lemma_fields_consume(fields, inner.rest, name, filled);
            let behind = taken_then(inner.rest, whole.rest, other);
            lemma_element_frame(fields[index].ty, inside, child, behind);
            lemma_fields_frame(fields, inner.rest, name, filled, other);
            assert(whole.rest.len() <= inner.rest.len() < events.len());
            assert(framed[0] == events[0]);
            assert(framed.skip(1) =~= taken_then(inside, inner.rest, behind));
        },
    }
}

/// A read of the members of a list looks at the events up to the closing
/// tag only.
pub proof fn lemma_items_frame(
    item: ElementType,
    events: Seq<Pulled>,
    name: ElementNameView,
    inner_tag: Seq<char>,
    items: Seq<ValueView>,
    other: Seq<Pulled>,
)
    requires
        read_items(item, events, name, inner_tag, items).result is Ok,
    ensures
        read_items(
            item,
            taken_then(events, read_items(item, events, name, inner_tag, items).rest, other),
            name,
            inner_tag,
            items,
        ) == (Parsed {
            result: read_items(item, events, name, inner_tag, items).result,
            rest: other,
        }),
    decreases events.len(), 0nat,
{
    let whole = read_items(item, events, name, inner_tag, items);
    let framed = taken_then(events, whole.rest, other);
    lemma_items_consume(item, events, name, inner_tag, items);
    let event = first(events)->Ok_0;
    assert(events.len() > 0);
    match list_step(name, inner_tag, event)->Ok_0 {
        ListStepView::Closed => {
            assert(framed[0] == events[0]);
            assert(framed.skip(1) =~= other);
        },
        ListStepView::Member { name: child, .. } => {
            let inside = events.skip(1);
            let inner = read_element(item, inside, child);
            let read = items.push(inner.result->Ok_0);
            lemma_element_consumes(item, inside, child);
            lemma_items_consume(item, inner.rest, name, inner_tag, read);
            let behind = taken_then(inner.rest, whole.rest, other);
            lemma_element_frame(item, inside, child, behind);
            lemma_items_frame(item, inner.rest, name, inner_tag, read, other);
            assert(whole.rest.len() <= inner.rest.len() < events.len());
            assert(framed[0] == events[0]);
            assert(framed.skip(1) =~= taken_then(inside, inner.rest, behind));
        },
    }
}

/// Whether `child` is one whole child of the record `name` that stands for
/// the field `index`: its opening tag, and the events that the read of the
/// field takes, all of them.
pub open spec fn whole_child(
    fields: Seq<Field>,
    name: ElementNameView,
    child: Seq<Pulled>,
    index: int,
) -> bool {
    &&& child.len() > 0
    &&& child[0] matches Ok(opened)
    &&& record_step(fields, name, opened) matches Ok(
        RecordStepView::Field { index: found, name: tag, .. },
    )
    &&& found == index
    &&& read_element(fields[index].ty, child.skip(1), tag).result is Ok
    &&& read_element(fields[index].ty, child.skip(1), tag).rest.len() == 0
}

/// Reading one whole child fills the slot of its field and goes on behind
/// it.
pub proof fn lemma_whole_child_is_read(
    fields: Seq<Field>,
    name: ElementNameView,
    slots: Seq<Option<ValueView>>,
    child: Seq<Pulled>,
    index: int,
    behind: Seq<Pulled>,
)
    requires
        whole_child(fields, name, child, index),
    ensures
        read_fields(fields, child + behind, name, slots) == read_fields(
            fields,
            behind,
            name,
            slots.update(
                index,
                Some(
                    read_element(
                        fields[index].ty,
                        child.skip(1),
                        record_step(fields, name, child[0]->Ok_0)->Ok_0->Field_name,
                    ).result->Ok_0,
                ),
            ),
        ),
{
    let tag = record_step(fields, name, child[0]->Ok_0)->Ok_0->Field_name;
    let inside = child.skip(1);
    lemma_element_frame(fields[index].ty, inside, tag, behind);
    assert(taken_then(inside, Seq::empty(), behind) =~= inside + behind);
    assert((child + behind).skip(1) =~= inside + behind);
    assert((child + behind)[0] == child[0]);
}

/// Two whole children of a record that stand for different fields may
/// change places: the record is read the same, whatever was read before
/// them and whatever follows them.
pub proof fn order_of_children_is_free(
    fields: Seq<Field>,
    name: ElementNameView,
    slots: Seq<Option<ValueView>>,
    one: Seq<Pulled>,
    one_index: int,
    other: Seq<Pulled>,
    other_index: int,
    behind: Seq<Pulled>,
)
    requires
        whole_child(fields, name, one, one_index),
        whole_child(fields, name, other, other_index),
        one_index != other_index,
        0 <= one_index < slots.len(),
        0 <= other_index < slots.len(),
    ensures
        read_fields(fields, one + other + behind, name, slots) == read_fields(
            fields,
            other + one + behind,
            name,
            slots,
        ),
{
    let one_tag = record_step(fields, name, one[0]->Ok_0)->Ok_0->Field_name;
    let other_tag = record_step(fields, name, other[0]->Ok_0)->Ok_0->Field_name;
    let one_value = read_element(fields[one_index].ty, one.skip(1), one_tag).result->Ok_0;
    let other_value = read_element(fields[other_index].ty, other.skip(1), other_tag).result->Ok_0;
    lemma_whole_child_is_read(fields, name, slots, one, one_index, other + behind);
    lemma_whole_child_is_read(
        fields,
        name,
        slots.update(one_index, Some(one_value)),
        other,
        other_index,
        behind,
    );
    lemma_whole_child_is_read(fields, name, slots, other, other_index, one + behind);
    lemma_whole_child_is_read(
        fields,
        name,
        slots.update(other_index, Some(other_value)),
        one,
        one_index,
        behind,
    );
    assert(one + other + behind =~= one + (other + behind));
    assert(other + one + behind =~= other + (one + behind));
    assert(slots.update(one_index, Some(one_value)).update(other_index, Some(other_value))
        =~= slots.update(other_index, Some(other_value)).update(one_index, Some(one_value)));
}

/// What the whole child `child` of the record `name`, which stands for the
/// field `index`, is read as.
pub open spec fn child_value(
    fields: Seq<Field>,
    name: ElementNameView,
    child: Seq<Pulled>,
    index: int,
) -> ValueView {
    read_element(
        fields[index].ty,
        child.skip(1),
        record_step(fields, name, child[0]->Ok_0)->Ok_0->Field_name,
    ).result->Ok_0
}

/// The events of the children from `from` on, one after the other, and
/// `behind` after them.
pub open spec fn children_then(children: Seq<Seq<Pulled>>, from: int, behind: Seq<Pulled>) -> Seq<
    Pulled,
>
    decreases children.len() - from,
{
    if from < 0 || from >= children.len() {
        behind
    } else {
        children[from] + children_then(children, from + 1, behind)
    }
}

/// The slots after the children from `from` on were read, each into the
/// slot of the field at its place.
pub open spec fn slots_with(
    fields: Seq<Field>,
    name: ElementNameView,
    slots: Seq<Option<ValueView>>,
    children: Seq<Seq<Pulled>>,
    places: Seq<int>,
    from: int,
) -> Seq<Option<ValueView>>
    decreases children.len() - from,
{
    if from < 0 || from >= children.len() {
        slots
    } else {
        slots_with(
            fields,
            name,
            slots.update(
                places[from],
                Some(child_value(fields, name, children[from], places[from])),
            ),
            children,
            places,
            from + 1,
        )
    }
}

/// Whether `children` are whole children of the record `name`, each for the
/// field at its place among `places`, and no two for the same field.
pub open spec fn children_once(
    fields: Seq<Field>,
    name: ElementNameView,
    children: Seq<Seq<Pulled>>,
    places: Seq<int>,
) -> bool {
    &&& children.len() == places.len()
    &&& forall|k: int|
        0 <= k < children.len() ==> 0 <= #[trigger] places[k] < fields.len() && whole_child(
            fields,
            name,
            children[k],
            places[k],
        )
    &&& forall|k: int, l: int|
        0 <= k < l < places.len() ==> #[trigger] places[k] != #[trigger] places[l]
}

/// Reading whole children one after the other fills their slots and goes
/// on behind them.
pub proof fn lemma_children_are_read(
    fields: Seq<Field>,
    name: ElementNameView,
    slots: Seq<Option<ValueView>>,
    children: Seq<Seq<Pulled>>,
    places: Seq<int>,
    from: int,
    behind: Seq<Pulled>,
)
    requires
        children_once(fields, name, children, places),
        0 <= from <= children.len(),
    ensures
        read_fields(fields, children_then(children, from, behind), name, slots) == read_fields(
            fields,
            behind,
            name,
            slots_with(fields, name, slots, children, places, from),
        ),
    decreases children.len() - from,
{
    if from < children.len() {
        let place = places[from];
        lemma_whole_child_is_read(
            fields,
            name,
            slots,
            children[from],
            place,
            children_then(children, from + 1, behind),
        );
        lemma_children_are_read(
            fields,
            name,
            slots.update(place, Some(child_value(fields, name, children[from], place))),
            children,
            places,
            from + 1,
            behind,
        );
    }
}

/// After children were read, no two for the same field, the slot of each
/// holds what that child was read as, and every other slot is as it was.
pub proof fn lemma_slots_with(
    fields: Seq<Field>,
    name: ElementNameView,
    slots: Seq<Option<ValueView>>,
    children: Seq<Seq<Pulled>>,
    places: Seq<int>,
    from: int,
)
    requires
        children_once(fields, name, children, places),
        slots.len() == fields.len(),
        0 <= from <= children.len(),
    ensures
        slots_with(fields, name, slots, children, places, from).len() == slots.len(),
        forall|k: int|
            from <= k < children.len() ==> slots_with(
                fields,
                name,
                slots,
                children,
                places,
                from,
            )[#[trigger] places[k]] == Some(child_value(fields, name, children[k], places[k])),
        forall|i: int|
            0 <= i < slots.len() && (forall|k: int|
                from <= k < children.len() ==> #[trigger] places[k] != i) ==> #[trigger] slots_with(
                fields,
                name,
                slots,
                children,
                places,
                from,
            )[i] == slots[i],
    decreases children.len() - from,
{
    if from < children.len() {
        let place = places[from];
        let filled = slots.update(place, Some(child_value(fields, name, children[from], place)));
        lemma_slots_with(fields, name, filled, children, places, from + 1);
        let after = slots_with(fields, name, slots, children, places, from);
        assert(after == slots_with(fields, name, filled, children, places, from + 1));
        assert forall|k: int| from <= k < children.len() implies after[#[trigger] places[k]]
            == Some(child_value(fields, name, children[k], places[k])) by {
            if k == from {
                assert(forall|l: int| from + 1 <= l < children.len() ==> #[trigger] places[l]
                    != place);
                assert(after[place] == filled[place]);
            }
        }
        assert forall|i: int|
            0 <= i < slots.len() && (forall|k: int|
                from <= k < children.len() ==> #[trigger] places[k] != i) implies #[trigger] after[i]
            == slots[i] by {
            assert(places[from] != i);
            assert(forall|k: int| from + 1 <= k < children.len() ==> #[trigger] places[k] != i);
            assert(after[i] == filled[i]);
        }
    }
}

/// The children of a record may stand in any order: two arrangements of
/// the same whole children, no two of them for the same field, are read the
/// same, whatever was read before them and whatever follows them.
pub proof fn arrangement_of_children_is_free(
    fields: Seq<Field>,
    name: ElementNameView,
    slots: Seq<Option<ValueView>>,
    children: Seq<Seq<Pulled>>,
    places: Seq<int>,
    rearranged: Seq<Seq<Pulled>>,
    rearranged_places: Seq<int>,
    behind: Seq<Pulled>,
)
    requires
        slots.len() == fields.len(),
        children_once(fields, name, children, places),
        children_once(fields, name, rearranged, rearranged_places),
        forall|k: int|
            0 <= k < children.len() ==> exists|l: int|
                0 <= l < rearranged.len() && #[trigger] rearranged[l] == #[trigger] children[k]
                    && rearranged_places[l] == places[k],
        forall|l: int|
            0 <= l < rearranged.len() ==> exists|k: int|
                0 <= k < children.len() && #[trigger] children[k] == #[trigger] rearranged[l]
                    && places[k] == rearranged_places[l],
    ensures
        read_fields(fields, children_then(children, 0, behind), name, slots) == read_fields(
            fields,
            children_then(rearranged, 0, behind),
            name,
            slots,
        ),
{
    let one = slots_with(fields, name, slots, children, places, 0);
    let other = slots_with(fields, name, slots, rearranged, rearranged_places, 0);
    lemma_children_are_read(fields, name, slots, children, places, 0, behind);
    lemma_children_are_read(fields, name, slots, rearranged, rearranged_places, 0, behind);
    lemma_slots_with(fields, name, slots, children, places, 0);
    lemma_slots_with(fields, name, slots, rearranged, rearranged_places, 0);
    assert forall|i: int| 0 <= i < slots.len() implies one[i] == other[i] by {
        if exists|k: int| 0 <= k < children.len() && places[k] == i {
            let k = choose|k: int| 0 <= k < children.len() && places[k] == i;
            let l = choose|l: int|
                0 <= l < rearranged.len() && #[trigger] rearranged[l] == #[trigger] children[k]
                    && rearranged_places[l] == places[k];
            assert(one[places[k]] == Some(child_value(fields, name, children[k], places[k])));
            assert(other[rearranged_places[l]] == Some(
                child_value(fields, name, rearranged[l], rearranged_places[l]),
            ));
        } else {
            assert(forall|k: int| 0 <= k < children.len() ==> #[trigger] places[k] != i);
            assert forall|l: int| 0 <= l < rearranged.len() implies #[trigger] rearranged_places[l]
                != i by {
                let k = choose|k: int|
                    0 <= k < children.len() && #[trigger] children[k] == #[trigger] rearranged[l]
                        && places[k] == rearranged_places[l];
                assert(places[k] != i);
            }
            assert(one[i] == slots[i]);
            assert(other[i] == slots[i]);
        }
    }
    assert(one =~= other);
}

/// Whether one of the children stands for the field `index`.
pub open spec fn has_child(places: Seq<int>, index: int) -> bool {
    exists|k: int| 0 <= k < places.len() && #[trigger] places[k] == index
}

/// Where every slot is filled, none is the first empty one.
proof fn lemma_none_empty(slots: Seq<Option<ValueView>>, from: int)
    requires
        0 <= from <= slots.len(),
        forall|i: int| 0 <= i < slots.len() ==> (#[trigger] slots[i]) is Some,
    ensures
        first_empty_from(slots, from) is None,
    decreases slots.len() - from,
{
    if from < slots.len() {
        lemma_none_empty(slots, from + 1);
    }
}

/// A record is read from its children in any order: where each declared
/// field has one whole child that is read as the value of that field, and
/// the closing tag of the record follows the children, the record is read as
/// the fields with their values in declaration order, however the children
/// are arranged.
pub proof fn record_is_read_in_any_order(
    fields: Seq<Field>,
    name: ElementNameView,
    values: Seq<FieldValueView>,
    children: Seq<Seq<Pulled>>,
    places: Seq<int>,
    closing: XmlEventView,
    behind: Seq<Pulled>,
)
    requires
        values.len() == fields.len(),
        forall|i: int| 0 <= i < fields.len() ==> (#[trigger] values[i]).tag == fields[i].tag@,
        children_once(fields, name, children, places),
        forall|i: int| 0 <= i < fields.len() ==> #[trigger] has_child(places, i),
        forall|k: int|
            0 <= k < children.len() ==> child_value(
                fields,
                name,
                children[k],
                #[trigger] places[k],
            ) == values[places[k]].value,
        closing.kind == (XmlEventKindView::EndElement { name }),
    ensures
        read_record(fields, children_then(children, 0, seq![Ok(closing)] + behind), name)
            == (Parsed { result: Ok(ValueView::Record(values)), rest: behind }),
{
    let empty = empty_slots(fields.len());
    let slots = slots_with(fields, name, empty, children, places, 0);
    let closed = seq![Ok(closing)] + behind;
    lemma_children_are_read(fields, name, empty, children, places, 0, closed);
    lemma_slots_with(fields, name, empty, children, places, 0);
    assert(closed[0] == Ok::<XmlEventView, xml::reader::Error>(closing));
    assert(closed.skip(1) =~= behind);
    assert forall|i: int| 0 <= i < slots.len() implies (#[trigger] slots[i]) == Some(
        values[i].value,
    ) by {
        assert(has_child(places, i));
        let k = choose|k: int| 0 <= k < places.len() && #[trigger] places[k] == i;
        assert(slots[places[k]] == Some(child_value(fields, name, children[k], places[k])));
    }
    lemma_none_empty(slots, 0);
    assert(assemble(fields, slots, name)->Ok_0->Record_0 =~= values);
}

} // verus!
