//! JSON documents as plain values, and the reading of JSON text.

use vstd::prelude::*;
use serde_json::Value;
use crate::text::same_text;

verus! {

/// `serde_json::Value`, of which nothing is known here but what
/// [`json_content`] names.
#[verifier::external_type_specification]
#[verifier::external_body]
pub struct ExValue(serde_json::Value);

/// `serde_json::Error`, which is passed on unread.
#[verifier::external_type_specification]
#[verifier::external_body]
pub struct ExError(serde_json::Error);

/// A JSON document. A number keeps no more than its kind: nothing in this
/// crate reads the value of one.
#[derive(Debug, PartialEq, Eq)]
pub enum Json {
    Null,
    Bool(bool),
    Number,
    Text(String),
    Array(Vec<Json>),
    Object(Vec<Member>),
}

/// A member of a JSON object.
#[derive(Debug, PartialEq, Eq)]
pub struct Member {
    pub name: String,
    pub value: Json,
}

/// The mathematical content of a [`Json`] document.
pub ghost enum JsonView {
    Null,
    Bool(bool),
    Number,
    Text(Seq<char>),
    Array(Seq<JsonView>),
    Object(Seq<MemberView>),
}

/// The mathematical content of a [`Member`].
pub ghost struct MemberView {
    pub name: Seq<char>,
    pub value: JsonView,
}

/// The content of a document: that of its parts, in their order.
pub open spec fn content_of(doc: Json) -> JsonView
    decreases doc,
{
    match doc {
        Json::Null => JsonView::Null,
        Json::Bool(b) => JsonView::Bool(b),
        Json::Number => JsonView::Number,
        Json::Text(text) => JsonView::Text(text@),
        Json::Array(items) => JsonView::Array(
            Seq::new(
                items@.len(),
                |i: int|
                    if 0 <= i < items@.len() {
                        content_of(items@[i])
                    } else {
                        JsonView::Null
                    },
            ),
        ),
        Json::Object(members) => JsonView::Object(
            Seq::new(
                members@.len(),
                |i: int|
                    if 0 <= i < members@.len() {
                        MemberView {
                            name: members@[i].name@,
                            value: content_of(members@[i].value),
                        }
                    } else {
                        MemberView { name: Seq::empty(), value: JsonView::Null }
                    },
            ),
        ),
    }
}

impl View for Json {
    type V = JsonView;

    open spec fn view(&self) -> JsonView {
        content_of(*self)
    }
}

/// The value of the first member of `members` that is called `name`.
pub open spec fn member(members: Seq<MemberView>, name: Seq<char>) -> Option<JsonView>
    decreases members.len(),
{
    if members.len() == 0 {
        None
    } else if members[0].name == name {
        Some(members[0].value)
    } else {
        member(members.drop_first(), name)
    }
}

/// The document that `serde_json::from_str` reads from a text, and none for
/// a text that it refuses.
pub uninterp spec fn json_document(text: Seq<char>) -> Option<JsonView>;

/// The document that a `serde_json::Value` holds.
pub uninterp spec fn json_content(value: Value) -> JsonView;

/// `serde_json::from_str`, called for a `serde_json::Value`. The contract
/// gives the outcome its name: the value holds the document that
/// [`json_document`] assigns to the text, and the call fails on the texts to
/// which it assigns none. The outcome depends on the text alone.
#[verifier::external_body]
fn parse_value(text: &str) -> (parsed: Result<Value, serde_json::Error>)
    ensures
        match parsed {
            Ok(value) => json_document(text@) == Some(json_content(value)),
            Err(_) => json_document(text@) is None,
        },
{
    serde_json::from_str::<Value>(text)
}

/// One level of a `serde_json::Value`: its kind, and its parts as they came.
enum Opened {
    Null,
    Bool(bool),
    Number,
    Text(String),
    Array(Vec<Value>),
    Object(Vec<Field>),
}

/// A member of an object whose value is not opened yet.
struct Field {
    name: String,
    value: Value,
}

/// The document that one opened level stands for.
spec fn opened_content(opened: Opened) -> JsonView {
    match opened {
        Opened::Null => JsonView::Null,
        Opened::Bool(b) => JsonView::Bool(b),
        Opened::Number => JsonView::Number,
        Opened::Text(text) => JsonView::Text(text@),
        Opened::Array(items) => JsonView::Array(
            Seq::new(items@.len(), |i: int| json_content(items@[i])),
        ),
        Opened::Object(fields) => JsonView::Object(
            Seq::new(
                fields@.len(),
                |i: int|
                    MemberView { name: fields@[i].name@, value: json_content(fields@[i].value) },
            ),
        ),
    }
}

/// Takes a `serde_json::Value` apart by one level, variant by variant: the
/// parts are moved out as they are, a number leaves its value behind, and
/// the members of an object come in the order in which `serde_json::Map`
/// hands them out. The contract names what the value and its parts hold as
/// [`json_content`].
#[verifier::external_body]
fn open(value: Value) -> (opened: Opened)
    ensures
        opened_content(opened) == json_content(value),
{
    match value {
        Value::Null => Opened::Null,
        Value::Bool(b) => Opened::Bool(b),
        Value::Number(_) => Opened::Number,
        Value::String(text) => Opened::Text(text),
        Value::Array(items) => Opened::Array(items),
        Value::Object(members) => Opened::Object(
            members.into_iter().map(|(name, value)| Field { name, value }).collect(),
        ),
    }
}

/// Moves what a `serde_json::Value` holds into a [`Json`], level by level.
fn unpack(value: Value) -> (doc: Json)
    ensures
        doc@ == json_content(value),
    decreases json_content(value),
{
    match open(value) {
        Opened::Null => Json::Null,
        Opened::Bool(b) => Json::Bool(b),
        Opened::Number => Json::Number,
        Opened::Text(text) => Json::Text(text),
        Opened::Array(items) => {
            let ghost parts = items@;
            let mut docs: Vec<Json> = Vec::new();
            for item in iter: items
                invariant
                    json_content(value) == JsonView::Array(
                        Seq::new(parts.len(), |i: int| json_content(parts[i])),
                    ),
                    iter.seq() == parts,
                    docs@.len() == iter.index(),
                    forall|k: int|
                        0 <= k < docs@.len() ==> (#[trigger] docs@[k])@ == json_content(parts[k]),
            {
                proof {
                    let whole = json_content(value)->Array_0;
                    assert(whole[iter.index()] == json_content(item));
                    assert(decreases_to!(whole => whole[iter.index()]));
                }
                docs.push(unpack(item));
            }
            let doc = Json::Array(docs);
            assert(doc@->Array_0 =~= json_content(value)->Array_0);
            doc
        },
        Opened::Object(fields) => {
            let ghost parts = fields@;
            let mut members: Vec<Member> = Vec::new();
            for field in iter: fields
                invariant
                    json_content(value) == JsonView::Object(
                        Seq::new(
                            parts.len(),
                            |i: int|
                                MemberView {
                                    name: parts[i].name@,
                                    value: json_content(parts[i].value),
                                },
                        ),
                    ),
                    iter.seq() == parts,
                    members@.len() == iter.index(),
                    forall|k: int|
                        0 <= k < members@.len() ==> (#[trigger] members@[k]).name@
                            == parts[k].name@ && members@[k].value@ == json_content(
                            parts[k].value,
                        ),
            {
                let Field { name, value: part } = field;
                proof {
                    let whole = json_content(value)->Object_0;
                    assert(whole[iter.index()].value == json_content(part));
                    assert(decreases_to!(whole => whole[iter.index()]));
                }
                members.push(Member { name, value: unpack(part) });
            }
            let doc = Json::Object(members);
            assert(doc@->Object_0 =~= json_content(value)->Object_0);
            doc
        },
    }
}

/// Reads a JSON text.
pub fn parse_json(text: &str) -> (parsed: Option<Json>)
    ensures
        match parsed {
            Some(doc) => json_document(text@) == Some(doc@),
            None => json_document(text@) is None,
        },
{
    match parse_value(text) {
        Ok(value) => Some(unpack(value)),
        Err(_) => None,
    }
}

impl Json {
    /// The value of the first member called `name`, where this document is an
    /// object that has one.
    pub fn get(&self, name: &str) -> (found: Option<&Json>)
        ensures
            match found {
                Some(value) => self@ is Object && member(self@->Object_0, name@) == Some(value@),
                None => !(self@ is Object) || member(self@->Object_0, name@) is None,
            },
    {
        match self {
            Json::Object(members) => {
                let mut index: usize = 0;
                assert(self@->Object_0.skip(0) =~= self@->Object_0);
                while index < members.len()
                    invariant
                        index <= members.len(),
                        self@ is Object,
                        self@->Object_0.len() == members@.len(),
                        forall|k: int|
                            0 <= k < members@.len() ==> #[trigger] self@->Object_0[k]
                                == (MemberView {
                                name: members@[k].name@,
                                value: members@[k].value@,
                            }),
                        member(self@->Object_0, name@) == member(
                            self@->Object_0.skip(index as int),
                            name@,
                        ),
                    decreases members.len() - index,
                {
                    let ghost rest = self@->Object_0.skip(index as int);
                    assert(rest[0] == self@->Object_0[index as int]);
                    assert(rest.drop_first() =~= self@->Object_0.skip(index + 1));
                    if same_text(members[index].name.as_str(), name) {
                        return Some(&members[index].value);
                    }
                    index += 1;
                }
                None
            },
            _ => None,
        }
    }
}

} // verus!
