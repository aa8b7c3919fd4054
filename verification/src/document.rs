//! The document that a trace is written out as: a tree of lists, objects,
//! texts and numbers, ready to be rendered as JSON.
//!
//! A value becomes an object with the members `type` and `value`; a frame
//! becomes an object with the members `name`, `ranges` and `locals`; a trace
//! becomes the list of its frames.

use crate::frame::{Frame, MFrame};
use crate::trace::MOutput;
use crate::value::{named_values_view, values_view, MValue, Value};
use vstd::prelude::*;

verus! {

/// Mathematical model of a document.
pub enum Document {
    Null,
    Bool(bool),
    Uint(u64),
    Int(i64),
    /// A number given as the bit pattern of a double.
    Float(u64),
    Text(Seq<char>),
    List(Seq<Document>),
    /// The members in the order in which they are written.
    Object(Seq<(Seq<char>, Document)>),
}

/// A document.
#[derive(Debug)]
pub enum Json {
    Null,
    Bool(bool),
    Uint(u64),
    Int(i64),
    /// A number given as the bit pattern of a double.
    Float(u64),
    Text(String),
    List(Vec<Json>),
    /// The members in the order in which they are written.
    Object(Vec<(String, Json)>),
}

/// The models of a list of documents, in order.
pub open spec fn documents_view(items: Seq<Json>) -> Seq<Document>
    decreases items,
{
    if items.len() == 0 {
        Seq::empty()
    } else {
        documents_view(items.drop_last()).push(document_of(items.last()))
    }
}

/// The models of a list of members, in order.
pub open spec fn members_view(members: Seq<(String, Json)>) -> Seq<(Seq<char>, Document)>
    decreases members,
{
    if members.len() == 0 {
        Seq::empty()
    } else {
        members_view(members.drop_last()).push(
            (members.last().0@, document_of(members.last().1)),
        )
    }
}

/// The model of a document.
pub open spec fn document_of(json: Json) -> Document
    decreases json,
{
    match json {
        Json::Null => Document::Null,
        Json::Bool(b) => Document::Bool(b),
        Json::Uint(n) => Document::Uint(n),
        Json::Int(n) => Document::Int(n),
        Json::Float(bits) => Document::Float(bits),
        Json::Text(text) => Document::Text(text@),
        Json::List(items) => Document::List(documents_view(items@)),
        Json::Object(members) => Document::Object(members_view(members@)),
    }
}

impl View for Json {
    type V = Document;

    open spec fn view(&self) -> Document {
        document_of(*self)
    }
}

/// `documents_view` keeps the length and maps position by position.
pub proof fn lemma_documents_view(items: Seq<Json>)
    ensures
        documents_view(items).len() == items.len(),
        forall|i: int| 0 <= i < items.len() ==> #[trigger] documents_view(items)[i] == items[i]@,
    decreases items.len(),
{
    if items.len() > 0 {
        let front = items.drop_last();
        lemma_documents_view(front);
        assert forall|i: int| 0 <= i < items.len() implies #[trigger] documents_view(items)[i]
            == items[i]@ by {
            if i < front.len() {
                assert(front[i] == items[i]);
            }
        }
    }
}

/// The object that a value is written as: its kind under `type`, and under
/// `value` what it holds. `Unallocated` holds nothing and has no `value`.
pub open spec fn value_document(value: Value) -> Document
    decreases value,
{
    match value {
        Value::Bool(b) => tagged("Bool"@, Document::Bool(b)),
        Value::Char(c) => tagged("Char"@, Document::Text(c)),
        Value::Uint(n) => tagged("Uint"@, Document::Uint(n)),
        Value::Int(n) => tagged("Int"@, Document::Int(n)),
        Value::Float(bits) => tagged("Float"@, Document::Float(bits)),
        Value::Struct { name, fields } => tagged(
            "Struct"@,
            Document::Object(
                seq![
                    ("name"@, Document::Text(name)),
                    ("fields"@, Document::List(named_values_documents(fields))),
                ],
            ),
        ),
        Value::String(s) => tagged("String"@, Document::Text(s)),
        Value::Array(items) => tagged("Array"@, Document::List(values_documents(items))),
        Value::Unallocated => Document::Object(seq![("type"@, Document::Text("Unallocated"@))]),
    }
}

/// The object with the kind `tag` under `type` and `payload` under `value`.
pub open spec fn tagged(tag: Seq<char>, payload: Document) -> Document {
    Document::Object(seq![("type"@, Document::Text(tag)), ("value"@, payload)])
}

/// The documents of a list of values, in order.
pub open spec fn values_documents(items: Seq<Value>) -> Seq<Document>
    decreases items,
{
    if items.len() == 0 {
        Seq::empty()
    } else {
        values_documents(items.drop_last()).push(value_document(items.last()))
    }
}

/// The documents of a list of named values, in order: each a list of the
/// name and the value.
pub open spec fn named_values_documents(fields: Seq<(Seq<char>, Value)>) -> Seq<Document>
    decreases fields,
{
    if fields.len() == 0 {
        Seq::empty()
    } else {
        named_values_documents(fields.drop_last()).push(
            Document::List(seq![Document::Text(fields.last().0), value_document(fields.last().1)]),
        )
    }
}

/// The documents of a list of ranges, in order: each a list of start and end.
pub open spec fn ranges_documents(ranges: Seq<(usize, usize)>) -> Seq<Document> {
    Seq::new(
        ranges.len(),
        |i: int|
            Document::List(seq![Document::Uint(ranges[i].0 as u64), Document::Uint(ranges[i].1 as u64)]),
    )
}

/// The object that a frame is written as.
pub open spec fn frame_document(frame: Frame) -> Document {
    Document::Object(
        seq![
            ("name"@, Document::Text(frame.name)),
            ("ranges"@, Document::List(ranges_documents(frame.ranges))),
            ("locals"@, Document::List(named_values_documents(frame.locals))),
        ],
    )
}

/// The list that a trace is written as.
pub open spec fn trace_document(trace: Seq<Frame>) -> Document {
    Document::List(Seq::new(trace.len(), |i: int| frame_document(trace[i])))
}

/// The object with the given kind under `type` and the payload under `value`.
fn tag(kind: &str, payload: Json) -> (json: Json)
    ensures
        json@ == tagged(kind@, payload@),
{
    let mut members: Vec<(String, Json)> = Vec::new();
    members.push((String::from_str("type"), Json::Text(String::from_str(kind))));
    members.push((String::from_str("value"), payload));
    proof {
        reveal_with_fuel(members_view, 3);
        assert(members@.drop_last().drop_last() =~= Seq::empty());
        assert(members_view(members@) =~= seq![
            ("type"@, Document::Text(kind@)),
            ("value"@, payload@),
        ]);
    }
    Json::Object(members)
}

/// A list of two documents.
fn pair(first: Json, second: Json) -> (json: Json)
    ensures
        json@ == Document::List(seq![first@, second@]),
{
    let mut items: Vec<Json> = Vec::new();
    items.push(first);
    items.push(second);
    proof {
        lemma_documents_view(items@);
        assert(documents_view(items@) =~= seq![first@, second@]);
    }
    Json::List(items)
}

/// Writes out a list of values.
pub fn values_to_json(items: &Vec<MValue>) -> (list: Vec<Json>)
    ensures
        documents_view(list@) == values_documents(values_view(items@)),
    decreases items,
{
    let mut list: Vec<Json> = Vec::new();
    let mut i: usize = 0;
    proof {
        assert(items@.take(0) =~= Seq::<MValue>::empty());
    }
    while i < items.len()
        invariant
            i <= items.len(),
            documents_view(list@) == values_documents(values_view(items@.take(i as int))),
        decreases items.len() - i,
    {
        let ghost before = list@;
        let item = items[i].to_json();
        list.push(item);
        proof {
            assert(list@.drop_last() =~= before);
            assert(items@.take(i + 1).drop_last() =~= items@.take(i as int));
            assert(values_view(items@.take(i + 1)).drop_last() =~= values_view(
                items@.take(i as int),
            ));
        }
        i = i + 1;
    }
    proof {
        assert(items@.take(items.len() as int) =~= items@);
    }
    list
}

/// Writes out a list of named values.
pub fn named_values_to_json(fields: &Vec<(String, MValue)>) -> (list: Vec<Json>)
    ensures
        documents_view(list@) == named_values_documents(named_values_view(fields@)),
    decreases fields,
{
    let mut list: Vec<Json> = Vec::new();
    let mut i: usize = 0;
    proof {
        assert(fields@.take(0) =~= Seq::<(String, MValue)>::empty());
    }
    while i < fields.len()
        invariant
            i <= fields.len(),
            documents_view(list@) == named_values_documents(
                named_values_view(fields@.take(i as int)),
            ),
        decreases fields.len() - i,
    {
        let ghost before = list@;
        let name = Json::Text(fields[i].0.clone());
        let value = fields[i].1.to_json();
        list.push(pair(name, value));
        proof {
            assert(list@.drop_last() =~= before);
            assert(fields@.take(i + 1).drop_last() =~= fields@.take(i as int));
            assert(named_values_view(fields@.take(i + 1)).drop_last() =~= named_values_view(
                fields@.take(i as int),
            ));
        }
        i = i + 1;
    }
    proof {
        assert(fields@.take(fields.len() as int) =~= fields@);
    }
    list
}

impl MValue {
    /// Writes the value out as a document.
    pub fn to_json(&self) -> (json: Json)
        ensures
            json@ == value_document(self@),
        decreases self,
    {
        match self {
            MValue::Bool(b) => tag("Bool", Json::Bool(*b)),
            MValue::Char(c) => tag("Char", Json::Text(c.clone())),
            MValue::Uint(n) => tag("Uint", Json::Uint(*n)),
            MValue::Int(n) => tag("Int", Json::Int(*n)),
            MValue::Float(bits) => tag("Float", Json::Float(*bits)),
            MValue::Struct { name, fields } => {
                let mut members: Vec<(String, Json)> = Vec::new();
                members.push((String::from_str("name"), Json::Text(name.clone())));
                let list = named_values_to_json(fields);
                members.push((String::from_str("fields"), Json::List(list)));
                proof {
                    reveal_with_fuel(members_view, 3);
                    assert(members@.drop_last().drop_last() =~= Seq::empty());
                    assert(members_view(members@) =~= seq![
                        ("name"@, Document::Text(name@)),
                        (
                            "fields"@,
                            Document::List(named_values_documents(named_values_view(fields@))),
                        ),
                    ]);
                }
                tag("Struct", Json::Object(members))
            },
            MValue::String(s) => tag("String", Json::Text(s.clone())),
            MValue::Array(items) => tag("Array", Json::List(values_to_json(items))),
            MValue::Unallocated => {
                let mut members: Vec<(String, Json)> = Vec::new();
                members.push((String::from_str("type"), Json::Text(String::from_str("Unallocated"))));
                proof {
                    reveal_with_fuel(members_view, 2);
                    assert(members@.drop_last() =~= Seq::empty());
                    assert(members_view(members@) =~= seq![
                        ("type"@, Document::Text("Unallocated"@)),
                    ]);
                }
                Json::Object(members)
            },
        }
    }
}

/// Writes out a list of ranges.
pub fn ranges_to_json(ranges: &Vec<(usize, usize)>) -> (list: Vec<Json>)
    ensures
        documents_view(list@) == ranges_documents(ranges@),
{
    let mut list: Vec<Json> = Vec::new();
    let mut i: usize = 0;
    while i < ranges.len()
        invariant
            i <= ranges.len(),
            list.len() == i,
            forall|k: int|
                0 <= k < i ==> (#[trigger] list@[k])@ == Document::List(
                    seq![Document::Uint(ranges@[k].0 as u64), Document::Uint(ranges@[k].1 as u64)],
                ),
        decreases ranges.len() - i,
    {
        let range = ranges[i];
        list.push(pair(Json::Uint(range.0 as u64), Json::Uint(range.1 as u64)));
        i = i + 1;
    }
    proof {
        lemma_documents_view(list@);
        assert(documents_view(list@) =~= ranges_documents(ranges@));
    }
    list
}

impl MFrame {
    /// Writes the frame out as a document.
    pub fn to_json(&self) -> (json: Json)
        ensures
            json@ == frame_document(self@),
    {
        let mut members: Vec<(String, Json)> = Vec::new();
        members.push((String::from_str("name"), Json::Text(self.name.clone())));
        members.push((String::from_str("ranges"), Json::List(ranges_to_json(&self.ranges))));
        members.push((String::from_str("locals"), Json::List(named_values_to_json(&self.locals))));
        proof {
            reveal_with_fuel(members_view, 4);
            assert(members@.drop_last().drop_last().drop_last() =~= Seq::empty());
            assert(members_view(members@) =~= seq![
                ("name"@, Document::Text(self.name@)),
                ("ranges"@, Document::List(ranges_documents(self.ranges@))),
                ("locals"@, Document::List(named_values_documents(named_values_view(self.locals@)))),
            ]);
        }
        Json::Object(members)
    }
}

impl MOutput {
    /// Writes the trace out as a document.
    pub fn to_json(&self) -> (json: Json)
        ensures
            json@ == trace_document(self@),
    {
        let mut list: Vec<Json> = Vec::new();
        let mut i: usize = 0;
        while i < self.0.len()
            invariant
                i <= self.0.len(),
                list.len() == i,
                forall|k: int| 0 <= k < i ==> (#[trigger] list@[k])@ == frame_document(self.0@[k]@),
            decreases self.0.len() - i,
        {
            list.push(self.0[i].to_json());
            i = i + 1;
        }
        proof {
            lemma_documents_view(list@);
            assert(documents_view(list@) =~= Seq::new(
                self@.len(),
                |i: int| frame_document(self@[i]),
            ));
        }
        Json::List(list)
    }
}

} // verus!
