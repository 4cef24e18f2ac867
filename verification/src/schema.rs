//! JSON schemas for the parameters of tools.

use crate::json;
use crate::json::{Json, JsonView};
use vstd::prelude::*;

verus! {

/// The texts of a list.
pub open spec fn strs(v: Seq<&str>) -> Seq<Seq<char>> {
    Seq::new(v.len(), |i: int| v[i]@)
}

/// A list of texts as JSON.
pub open spec fn text_list(ts: Seq<Seq<char>>) -> JsonView {
    JsonView::List(Seq::new(ts.len(), |i: int| JsonView::Text(ts[i])))
}

/// A parameter of which only the type is told.
pub open spec fn plain(kind: Seq<char>) -> JsonView {
    JsonView::Object(seq![json::text_field("type"@, kind)])
}

/// A text with a description.
pub open spec fn described(description: Seq<char>) -> JsonView {
    JsonView::Object(
        seq![
            json::text_field("type"@, "string"@),
            json::text_field("description"@, description),
        ],
    )
}

/// One of several texts.
pub open spec fn one_of(choices: Seq<Seq<char>>) -> JsonView {
    JsonView::Object(
        seq![json::text_field("type"@, "string"@), ("enum"@, text_list(choices))],
    )
}

/// One of several texts, with a description.
pub open spec fn described_one_of(choices: Seq<Seq<char>>, description: Seq<char>) -> JsonView {
    JsonView::Object(
        seq![
            json::text_field("type"@, "string"@),
            ("enum"@, text_list(choices)),
            json::text_field("description"@, description),
        ],
    )
}

/// An integer with a default.
pub open spec fn integer_or(usual: u64) -> JsonView {
    JsonView::Object(
        seq![json::text_field("type"@, "integer"@), ("default"@, JsonView::Unsigned(usual))],
    )
}

/// An object with those members, some of which must be there.
pub open spec fn object_of(
    properties: Seq<(Seq<char>, JsonView)>,
    required: Seq<Seq<char>>,
) -> JsonView {
    JsonView::Object(
        seq![
            json::text_field("type"@, "object"@),
            ("properties"@, JsonView::Object(properties)),
            ("required"@, text_list(required)),
        ],
    )
}

/// A list of texts as JSON.
pub fn make_text_list(ts: Vec<&str>) -> (r: Json)
    ensures
        r@ == text_list(strs(ts@)),
{
    let mut out: Vec<Json> = Vec::new();
    let mut i: usize = 0;
    while i < ts.len()
        invariant
            i <= ts@.len(),
            out@.len() == i,
            forall|j: int| #![trigger out@[j]]
                0 <= j < i ==> out@[j]@ == JsonView::Text(ts@[j]@),
        decreases ts@.len() - i,
    {
        out.push(Json::Text(ts[i].to_owned()));
        i = i + 1;
    }
    let r: Json = Json::List(out);
    assert(r@->List_0 =~= text_list(strs(ts@))->List_0);
    r
}

/// A parameter of which only the type is told.
pub fn make_plain(kind: &str) -> (r: Json)
    ensures
        r@ == plain(kind@),
{
    let mut v: Vec<(String, Json)> = Vec::new();
    v.push(json::text_entry("type", kind));
    let r: Json = Json::Object(v);
    assert(r@->Object_0 =~= plain(kind@)->Object_0);
    r
}

/// A text with a description.
pub fn make_described(description: &str) -> (r: Json)
    ensures
        r@ == described(description@),
{
    let mut v: Vec<(String, Json)> = Vec::new();
    v.push(json::text_entry("type", "string"));
    v.push(json::text_entry("description", description));
    let r: Json = Json::Object(v);
    assert(r@->Object_0 =~= described(description@)->Object_0);
    r
}

/// One of several texts.
pub fn make_one_of(choices: Vec<&str>) -> (r: Json)
    ensures
        r@ == one_of(strs(choices@)),
{
    let ghost all = strs(choices@);
    let mut v: Vec<(String, Json)> = Vec::new();
    v.push(json::text_entry("type", "string"));
    v.push(("enum".to_owned(), make_text_list(choices)));
    let r: Json = Json::Object(v);
    assert(r@->Object_0 =~= one_of(all)->Object_0);
    r
}

/// One of several texts, with a description.
pub fn make_described_one_of(choices: Vec<&str>, description: &str) -> (r: Json)
    ensures
        r@ == described_one_of(strs(choices@), description@),
{
    let ghost all = strs(choices@);
    let mut v: Vec<(String, Json)> = Vec::new();
    v.push(json::text_entry("type", "string"));
    v.push(("enum".to_owned(), make_text_list(choices)));
    v.push(json::text_entry("description", description));
    let r: Json = Json::Object(v);
    assert(r@->Object_0 =~= described_one_of(all, description@)->Object_0);
    r
}

/// An integer with a default.
pub fn make_integer_or(usual: u64) -> (r: Json)
    ensures
        r@ == integer_or(usual),
{
    let mut v: Vec<(String, Json)> = Vec::new();
    v.push(json::text_entry("type", "integer"));
    let default: Json = Json::Unsigned(usual);
    assert(default@ == JsonView::Unsigned(usual));
    v.push(("default".to_owned(), default));
    let r: Json = Json::Object(v);
    assert(r@->Object_0 =~= integer_or(usual)->Object_0);
    r
}

/// An object with those members, some of which must be there.
pub fn make_object(properties: Vec<(String, Json)>, required: Vec<&str>) -> (r: Json)
    ensures
        r@ == object_of(json::members(properties@), strs(required@)),
{
    let ghost ms = json::members(properties@);
    let ghost names = strs(required@);
    let inner: Json = Json::Object(properties);
    assert(inner@->Object_0 =~= ms);
    let mut v: Vec<(String, Json)> = Vec::new();
    v.push(json::text_entry("type", "object"));
    v.push(("properties".to_owned(), inner));
    v.push(("required".to_owned(), make_text_list(required)));
    let r: Json = Json::Object(v);
    assert(r@->Object_0 =~= object_of(ms, names)->Object_0);
    r
}

} // verus!
