//! The declared shape of records, and the values that have such a shape.

use vstd::prelude::*;
use vstd::string::StringExecFns;

use crate::naming::{lower_camel_case, opt_str, tag_for, tag_name};

verus! {

/// The semantic type of an element.
#[derive(Debug, PartialEq, Eq)]
pub enum ElementType {
    /// Text, taken verbatim.
    Text,
    /// A boolean.
    Boolean,
    /// An unsigned integer of 32 bits.
    Unsigned,
    /// A nested record with the given fields, in declaration order.
    Record(Vec<Field>),
    /// A sequence: a container element that holds any number of elements of
    /// the type `item`, each under the tag `item_tag`.
    List { item_tag: String, item: Box<ElementType> },
}

/// One declared field of a record: the tag of its element and its type.
#[derive(Debug, PartialEq, Eq)]
pub struct Field {
    pub tag: String,
    pub ty: ElementType,
}

/// The shape of a document: the tag of the root element and the fields of
/// the record that it holds.
#[derive(Debug, PartialEq, Eq)]
pub struct RecordSchema {
    pub tag: String,
    pub fields: Vec<Field>,
}

impl Field {
    /// The field that the identifier `name` declares. Its tag is `rename`
    /// where that is given, else `name` in lower camel case.
    pub fn new(name: &str, rename: Option<&str>, ty: ElementType) -> (field: Field)
        ensures
            field.tag@ == tag_for(name@, opt_str(rename)),
            field.ty == ty,
    {
        Field { tag: tag_name(name, rename), ty }
    }
}

impl ElementType {
    /// The type of a list whose members have the type `item` and stand
    /// under the tag `item_tag`.
    pub fn list_of(item_tag: &str, item: ElementType) -> (ty: ElementType)
        ensures
            ty == (ElementType::List { item_tag: ty->item_tag, item: Box::new(item) }),
            ty->item_tag@ == item_tag@,
    {
        ElementType::List { item_tag: String::from_str(item_tag), item: Box::new(item) }
    }
}

impl RecordSchema {
    /// The shape of the documents of the record type `record_name`. The root
    /// tag is the type's name in lower camel case.
    pub fn new(record_name: &str, fields: Vec<Field>) -> (schema: RecordSchema)
        ensures
            schema.tag@ == lower_camel_case(record_name@),
            schema.fields == fields,
    {
        RecordSchema { tag: tag_name(record_name, None), fields }
    }
}

/// The index of the first field at or after `from` whose tag is `tag`.
pub open spec fn field_index_from(fields: Seq<Field>, tag: Seq<char>, from: int) -> Option<int>
    decreases fields.len() - from,
{
    if from < 0 || from >= fields.len() {
        None
    } else if fields[from].tag@ == tag {
        Some(from)
    } else {
        field_index_from(fields, tag, from + 1)
    }
}

/// The index of the first field whose tag is `tag`.
pub open spec fn field_index(fields: Seq<Field>, tag: Seq<char>) -> Option<int> {
    field_index_from(fields, tag, 0)
}

/// The first field whose tag is `tag` has that tag, and stands at or after
/// the place where the search began.
pub proof fn lemma_field_index_found(fields: Seq<Field>, tag: Seq<char>, from: int)
    requires
        0 <= from,
    ensures
        field_index_from(fields, tag, from) matches Some(index) ==> from <= index < fields.len()
            && fields[index].tag@ == tag,
    decreases fields.len() - from,
{
    if from < fields.len() && fields[from].tag@ != tag {
        lemma_field_index_found(fields, tag, from + 1);
    }
}

/// Whether no two of the fields share a tag.
pub open spec fn distinct_tags(fields: Seq<Field>) -> bool {
    forall|i: int, j: int|
        0 <= i < j < fields.len() ==> (#[trigger] fields[i]).tag@ != (#[trigger] fields[j]).tag@
}

/// Among fields with distinct tags, the first field with the tag of the
/// field `index` is that field.
pub proof fn lemma_field_index_distinct(fields: Seq<Field>, index: int, from: int)
    requires
        0 <= from <= index < fields.len(),
        distinct_tags(fields),
    ensures
        field_index_from(fields, fields[index].tag@, from) == Some(index),
    decreases index - from,
{
    if from < index {
        lemma_field_index_distinct(fields, index, from + 1);
    }
}

/// Whether every record in `ty`, at any depth, has fields with distinct
/// tags.
pub open spec fn unambiguous(ty: ElementType) -> bool
    decreases ty,
{
    match ty {
        ElementType::Record(fields) => {
            &&& distinct_tags(fields@)
            &&& forall|i: int| 0 <= i < fields@.len() ==> unambiguous(#[trigger] fields@[i].ty)
        },
        ElementType::List { item, .. } => unambiguous(*item),
        _ => true,
    }
}

/// A value: what an element holds, together with the tags under which its
/// parts are written.
#[derive(Debug, PartialEq, Eq)]
pub enum Value {
    /// Text.
    Text(String),
    /// A boolean.
    Boolean(bool),
    /// An unsigned integer.
    Unsigned(u32),
    /// A record: its fields in declaration order.
    Record(Vec<FieldValue>),
    /// A sequence of values, each written under the tag `item_tag`.
    List { item_tag: String, items: Vec<Value> },
}

/// One field of a record value: its tag and what it holds.
#[derive(Debug, PartialEq, Eq)]
pub struct FieldValue {
    pub tag: String,
    pub value: Value,
}

/// Mathematical model of a [`Value`].
pub enum ValueView {
    Text(Seq<char>),
    Boolean(bool),
    Unsigned(u32),
    Record(Seq<FieldValueView>),
    List { item_tag: Seq<char>, items: Seq<ValueView> },
}

/// Mathematical model of a [`FieldValue`].
pub struct FieldValueView {
    pub tag: Seq<char>,
    pub value: ValueView,
}

/// The mathematical value of `value`.
pub open spec fn value_view(value: Value) -> ValueView
    decreases value,
{
    match value {
        Value::Text(text) => ValueView::Text(text@),
        Value::Boolean(value) => ValueView::Boolean(value),
        Value::Unsigned(value) => ValueView::Unsigned(value),
        Value::Record(fields) => ValueView::Record(
            Seq::new(
                fields@.len(),
                |i: int|
                    if 0 <= i < fields@.len() {
                        FieldValueView {
                            tag: fields@[i].tag@,
                            value: value_view(fields@[i].value),
                        }
                    } else {
                        FieldValueView { tag: Seq::empty(), value: ValueView::Boolean(false) }
                    },
            ),
        ),
        Value::List { item_tag, items } => ValueView::List {
            item_tag: item_tag@,
            items: Seq::new(
                items@.len(),
                |i: int|
                    if 0 <= i < items@.len() {
                        value_view(items@[i])
                    } else {
                        ValueView::Boolean(false)
                    },
            ),
        },
    }
}

impl View for Value {
    type V = ValueView;

    open spec fn view(&self) -> ValueView {
        value_view(*self)
    }
}

impl View for FieldValue {
    type V = FieldValueView;

    open spec fn view(&self) -> FieldValueView {
        FieldValueView { tag: self.tag@, value: self.value@ }
    }
}

/// The mathematical values of a run of values.
pub open spec fn values_view(values: Seq<Value>) -> Seq<ValueView> {
    Seq::new(values.len(), |i: int| values[i]@)
}

/// Whether `value` has the shape `ty`: the same kind, for a record the
/// declared fields in declaration order under their tags, for a list the
/// declared item tag, and parts that have the shape of their types.
pub open spec fn conforms(value: ValueView, ty: ElementType) -> bool
    decreases value,
{
    match value {
        ValueView::Text(_) => ty is Text,
        ValueView::Boolean(_) => ty is Boolean,
        ValueView::Unsigned(_) => ty is Unsigned,
        ValueView::Record(fields) => {
            &&& ty is Record
            &&& fields.len() == ty->Record_0@.len()
            &&& forall|i: int|
                0 <= i < fields.len() ==> {
                    &&& (#[trigger] fields[i]).tag == ty->Record_0@[i].tag@
                    &&& conforms(fields[i].value, ty->Record_0@[i].ty)
                }
        },
        ValueView::List { item_tag, items } => {
            &&& ty is List
            &&& item_tag == ty->item_tag@
            &&& forall|i: int| 0 <= i < items.len() ==> conforms(#[trigger] items[i], *ty->item)
        },
    }
}

/// Whether no two of the fields share a tag.
pub fn has_distinct_tags(fields: &Vec<Field>) -> (result: bool)
    ensures
        result == distinct_tags(fields@),
{
    let mut first: usize = 0;
    while first < fields.len()
        invariant
            first <= fields@.len(),
            forall|i: int, j: int|
                0 <= i < j < fields@.len() && i < first ==> (#[trigger] fields@[i]).tag@ != (
                #[trigger] fields@[j]).tag@,
        decreases fields@.len() - first,
    {
        let mut second: usize = first + 1;
        while second < fields.len()
            invariant
                first < second <= fields@.len(),
                forall|j: int|
                    first < j < second ==> fields@[first as int].tag@ != (
                    #[trigger] fields@[j]).tag@,
            decreases fields@.len() - second,
        {
            if fields[first].tag == fields[second].tag {
                return false;
            }
            second += 1;
        }
        first += 1;
    }
    true
}

impl ElementType {
    /// Whether every record in this type, at any depth, has fields with
    /// distinct tags, so that each child of a record stands for one field.
    #[verifier::loop_isolation(false)]
    pub fn is_unambiguous(&self) -> (result: bool)
        ensures
            result == unambiguous(*self),
        decreases self,
    {
        match self {
            ElementType::Record(fields) => {
                if !has_distinct_tags(fields) {
                    return false;
                }
                let mut at: usize = 0;
                while at < fields.len()
                    invariant
                        at <= fields@.len(),
                        forall|i: int| 0 <= i < at ==> unambiguous(#[trigger] fields@[i].ty),
                    decreases fields@.len() - at,
                {
                    proof {
                        vstd::std_specs::vec::axiom_vec_index_decreases(*fields, at as int);
                    }
                    if !fields[at].ty.is_unambiguous() {
                        return false;
                    }
                    at += 1;
                }
                true
            },
            ElementType::List { item, .. } => item.is_unambiguous(),
            _ => true,
        }
    }
}

impl RecordSchema {
    /// Whether every record of the schema, the root and those below it, has
    /// fields with distinct tags.
    #[verifier::loop_isolation(false)]
    pub fn is_unambiguous(&self) -> (result: bool)
        ensures
            result == unambiguous(ElementType::Record(self.fields)),
    {
        if !has_distinct_tags(&self.fields) {
            return false;
        }
        let mut at: usize = 0;
        while at < self.fields.len()
            invariant
                at <= self.fields@.len(),
                forall|i: int| 0 <= i < at ==> unambiguous(#[trigger] self.fields@[i].ty),
            decreases self.fields@.len() - at,
        {
            if !self.fields[at].ty.is_unambiguous() {
                return false;
            }
            at += 1;
        }
        true
    }
}

impl Value {
    /// Whether this value has the shape `ty`.
    #[verifier::loop_isolation(false)]
    pub fn conforms_to(&self, ty: &ElementType) -> (result: bool)
        ensures
            result == conforms(self@, *ty),
        decreases self,
    {
        match self {
            Value::Text(_) => matches!(ty, ElementType::Text),
            Value::Boolean(_) => matches!(ty, ElementType::Boolean),
            Value::Unsigned(_) => matches!(ty, ElementType::Unsigned),
            Value::Record(fields) => {
                let declared = match ty {
                    ElementType::Record(declared) => declared,
                    _ => {
                        return false;
                    },
                };
                if fields.len() != declared.len() {
                    return false;
                }
                let ghost parts = self@->Record_0;
                let mut at: usize = 0;
                while at < fields.len()
                    invariant
                        at <= fields@.len(),
                        parts.len() == fields@.len(),
                        forall|i: int|
                            0 <= i < at ==> (#[trigger] parts[i]).tag == declared@[i].tag@
                                && conforms(parts[i].value, declared@[i].ty),
                    decreases fields@.len() - at,
                {
                    proof {
                        vstd::std_specs::vec::axiom_vec_index_decreases(*fields, at as int);
                    }
                    if fields[at].tag != declared[at].tag {
                        assert(parts[at as int].tag != declared@[at as int].tag@);
                        return false;
                    }
                    if !fields[at].value.conforms_to(&declared[at].ty) {
                        assert(!conforms(parts[at as int].value, declared@[at as int].ty));
                        return false;
                    }
                    at += 1;
                }
                true
            },
            Value::List { item_tag, items } => {
                let (declared_tag, declared_item) = match ty {
                    ElementType::List { item_tag, item } => (item_tag, item),
                    _ => {
                        return false;
                    },
                };
                if *item_tag != *declared_tag {
                    return false;
                }
                let ghost members = self@->items;
                let mut at: usize = 0;
                while at < items.len()
                    invariant
                        at <= items@.len(),
                        members.len() == items@.len(),
                        forall|i: int|
                            0 <= i < at ==> conforms(#[trigger] members[i], **declared_item),
                    decreases items@.len() - at,
                {
                    proof {
                        vstd::std_specs::vec::axiom_vec_index_decreases(*items, at as int);
                    }
                    if !items[at].conforms_to(declared_item) {
                        assert(!conforms(members[at as int], **declared_item));
                        return false;
                    }
                    at += 1;
                }
                true
            },
        }
    }
}

} // verus!
