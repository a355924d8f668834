//! JSON documents, read with the `serde_json` crate.

use crate::text::same_text;
use vstd::prelude::*;

verus! {

/// A JSON document as mathematics.
pub enum JsonView {
    Null,
    Bool(bool),
    /// A number: its value where it is written as an integer of `u64`, else `None`.
    Number(Option<u64>),
    Text(Seq<char>),
    Array(Seq<JsonView>),
    /// The members, in the order of their keys.
    Object(Seq<(Seq<char>, JsonView)>),
}

/// A JSON document.
pub enum Json {
    Null,
    Bool(bool),
    /// A number: its value where it is written as an integer of `u64`, else `None`.
    Number(Option<u64>),
    Text(String),
    Array(Vec<Json>),
    /// The members, in the order of their keys.
    Object(Vec<(String, Json)>),
}

impl View for Json {
    type V = JsonView;

    open spec fn view(&self) -> JsonView {
        self.tree()
    }
}

impl Json {
    /// What the document holds, down to its leaves.
    pub open spec fn tree(&self) -> JsonView
        decreases self,
    {
        match self {
            Json::Null => JsonView::Null,
            Json::Bool(b) => JsonView::Bool(*b),
            Json::Number(n) => JsonView::Number(*n),
            Json::Text(s) => JsonView::Text(s@),
            Json::Array(items) => JsonView::Array(
                Seq::new(
                    items@.len(),
                    |i: int|
                        if 0 <= i < items@.len() {
                            items@[i].tree()
                        } else {
                            JsonView::Null
                        },
                ),
            ),
            Json::Object(members) => JsonView::Object(
                Seq::new(
                    members@.len(),
                    |i: int|
                        if 0 <= i < members@.len() {
                            (members@[i].0@, members@[i].1.tree())
                        } else {
                            (Seq::empty(), JsonView::Null)
                        },
                ),
            ),
        }
    }
}

/// `serde_json::Value`: a JSON document of any shape.
#[verifier::external_type_specification]
#[verifier::external_body]
pub struct ExValue(serde_json::Value);

/// What a `serde_json::Value` holds, down to its leaves.
pub uninterp spec fn contents(v: serde_json::Value) -> JsonView;

/// The document that `serde_json::from_str` reads in a text, if it is one.
pub uninterp spec fn json_of_text(text: Seq<char>) -> Option<JsonView>;

/// The document that `serde_json::from_slice` reads in bytes, if they are one.
pub uninterp spec fn json_of_bytes(bytes: Seq<u8>) -> Option<JsonView>;

/// What an optional document holds.
pub open spec fn opt_contents(v: Option<serde_json::Value>) -> Option<JsonView> {
    match v {
        Some(v) => Some(contents(v)),
        None => None,
    }
}

/// `serde_json::from_str` reads a document in a text; the same text gives the
/// same document, or none.
#[verifier::external_body]
fn value_of_text(text: &str) -> (r: Option<serde_json::Value>)
    ensures
        opt_contents(r) == json_of_text(text@),
{
    serde_json::from_str(text).ok()
}

/// `serde_json::from_slice` reads a document in bytes; the same bytes give the
/// same document, or none.
#[verifier::external_body]
fn value_of_bytes(bytes: &[u8]) -> (r: Option<serde_json::Value>)
    ensures
        opt_contents(r) == json_of_bytes(bytes@),
{
    serde_json::from_slice(bytes).ok()
}

/// The outermost layer of a document.
enum Layer {
    Null,
    Bool(bool),
    Number(Option<u64>),
    Text(String),
    Array(Vec<serde_json::Value>),
    Object(Vec<(String, serde_json::Value)>),
}

impl Layer {
    spec fn holds(&self) -> JsonView {
        match self {
            Layer::Null => JsonView::Null,
            Layer::Bool(b) => JsonView::Bool(*b),
            Layer::Number(n) => JsonView::Number(*n),
            Layer::Text(s) => JsonView::Text(s@),
            Layer::Array(items) => JsonView::Array(
                items@.map_values(|v: serde_json::Value| contents(v)),
            ),
            Layer::Object(members) => JsonView::Object(
                members@.map_values(|e: (String, serde_json::Value)| (e.0@, contents(e.1))),
            ),
        }
    }
}

/// The variants of `serde_json::Value`, one for one; of a number it asks
/// `serde_json::Number::as_u64`. What the layer holds is what the value holds.
#[verifier::external_body]
fn outer_layer(v: serde_json::Value) -> (r: Layer)
    ensures
        r.holds() == contents(v),
{
    match v {
        serde_json::Value::Null => Layer::Null,
        serde_json::Value::Bool(b) => Layer::Bool(b),
        serde_json::Value::Number(n) => Layer::Number(n.as_u64()),
        serde_json::Value::String(s) => Layer::Text(s),
        serde_json::Value::Array(items) => Layer::Array(items),
        serde_json::Value::Object(members) => Layer::Object(members.into_iter().collect()),
    }
}

fn document(v: serde_json::Value) -> (r: Json)
    ensures
        r@ == contents(v),
    decreases contents(v),
{
    match outer_layer(v) {
        Layer::Null => Json::Null,
        Layer::Bool(b) => Json::Bool(b),
        Layer::Number(n) => Json::Number(n),
        Layer::Text(s) => Json::Text(s),
        Layer::Array(items) => {
            let mut out: Vec<Json> = Vec::new();
            let ghost all = items@;
            let ghost held = all.map_values(|v: serde_json::Value| contents(v));
            for item in it: items
                invariant
                    it.seq() == all,
                    held == all.map_values(|v: serde_json::Value| contents(v)),
                    contents(v) == JsonView::Array(held),
                    out@.len() == it.index(),
                    forall|i: int| 0 <= i < out@.len() ==> (#[trigger] out@[i])@ == held[i],
            {
                let ghost i = it.index() as int;
                assert(held[i] == contents(item));
                assert(decreases_to!(contents(v) => contents(v)->Array_0));
                assert(decreases_to!(held => held[i]));
                out.push(document(item));
            }
            let r = Json::Array(out);
            assert(r@->Array_0 =~= held);
            r
        },
        Layer::Object(members) => {
            let mut out: Vec<(String, Json)> = Vec::new();
            let ghost all = members@;
            let ghost held = all.map_values(
                |e: (String, serde_json::Value)| (e.0@, contents(e.1)),
            );
            for member in it: members
                invariant
                    it.seq() == all,
                    held == all.map_values(
                        |e: (String, serde_json::Value)| (e.0@, contents(e.1)),
                    ),
                    contents(v) == JsonView::Object(held),
                    out@.len() == it.index(),
                    forall|i: int|
                        0 <= i < out@.len() ==> ((#[trigger] out@[i]).0@, out@[i].1@) == held[i],
            {
                let ghost i = it.index() as int;
                assert(held[i] == (member.0@, contents(member.1)));
                assert(decreases_to!(contents(v) => contents(v)->Object_0));
                assert(decreases_to!(held => held[i]));
                assert(decreases_to!(held[i] => held[i].1));
                let (key, value) = member;
                out.push((key, document(value)));
            }
            let r = Json::Object(out);
            assert(r@->Object_0 =~= held);
            r
        },
    }
}

/// What an optional document holds.
pub open spec fn opt_view(v: Option<Json>) -> Option<JsonView> {
    match v {
        Some(v) => Some(v@),
        None => None,
    }
}

/// Reads the JSON document that a text is.
pub fn parse_text(text: &str) -> (r: Option<Json>)
    ensures
        opt_view(r) == json_of_text(text@),
{
    match value_of_text(text) {
        Some(v) => Some(document(v)),
        None => None,
    }
}

/// Reads the JSON document that bytes are.
pub fn parse_bytes(bytes: &[u8]) -> (r: Option<Json>)
    ensures
        opt_view(r) == json_of_bytes(bytes@),
{
    match value_of_bytes(bytes) {
        Some(v) => Some(document(v)),
        None => None,
    }
}

impl JsonView {
    /// The member with the key, where the document is an object that has it.
    pub open spec fn member(self, key: Seq<char>) -> Option<JsonView> {
        match self {
            JsonView::Object(members) => first_member(members, key),
            _ => None,
        }
    }

    /// The text, where the document is one.
    pub open spec fn text(self) -> Option<Seq<char>> {
        match self {
            JsonView::Text(s) => Some(s),
            _ => None,
        }
    }
}

/// The value of the first of the members with the key.
pub open spec fn first_member(members: Seq<(Seq<char>, JsonView)>, key: Seq<char>) -> Option<
    JsonView,
>
    decreases members.len(),
{
    if members.len() == 0 {
        None
    } else if members[0].0 == key {
        Some(members[0].1)
    } else {
        first_member(members.drop_first(), key)
    }
}

/// What an optional reference to a document holds.
pub open spec fn ref_view(v: Option<&Json>) -> Option<JsonView> {
    match v {
        Some(v) => Some(v@),
        None => None,
    }
}

impl Json {
    /// The member with the key, where the document is an object that has it.
    pub fn get(&self, key: &str) -> (r: Option<&Json>)
        ensures
            ref_view(r) == self@.member(key@),
    {
        match self {
            Json::Object(members) => {
                let ghost held = self@->Object_0;
                let mut i: usize = 0;
                assert(held.skip(0) == held);
                while i < members.len()
                    invariant
                        self@ == JsonView::Object(held),
                        i <= members@.len() == held.len(),
                        forall|k: int|
                            0 <= k < held.len() ==> #[trigger] held[k] == (
                                members@[k].0@,
                                members@[k].1@,
                            ),
                        first_member(held, key@) == first_member(held.skip(i as int), key@),
                    decreases members@.len() - i,
                {
                    let ghost rest = held.skip(i as int);
                    assert(rest[0] == held[i as int]);
                    if same_text(members[i].0.as_str(), key) {
                        return Some(&members[i].1);
                    }
                    assert(rest.drop_first() == held.skip(i + 1));
                    i += 1;
                }
                None
            },
            _ => None,
        }
    }

    /// The text, where the document is one.
    pub fn as_str(&self) -> (r: Option<&String>)
        ensures
            self@.text() == (match r {
                Some(s) => Some(s@),
                None => None,
            }),
    {
        match self {
            Json::Text(s) => Some(s),
            _ => None,
        }
    }
}

} // verus!
