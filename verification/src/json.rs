//! JSON values as plain data, and their texts.

use crate::text;
use vstd::prelude::*;

verus! {

/// A JSON value. A number that is no integer of 64 bits is kept as its text.
#[derive(Debug)]
pub enum Json {
    Null,
    Bool(bool),
    Unsigned(u64),
    Negative(i64),
    Float(String),
    Text(String),
    List(Vec<Json>),
    Object(Vec<(String, Json)>),
}

/// A JSON value as sequences.
pub enum JsonView {
    Null,
    Bool(bool),
    Unsigned(u64),
    Negative(i64),
    Float(Seq<char>),
    Text(Seq<char>),
    List(Seq<JsonView>),
    Object(Seq<(Seq<char>, JsonView)>),
}

/// What a JSON value holds.
pub open spec fn model(j: Json) -> JsonView
    decreases j,
{
    match j {
        Json::Null => JsonView::Null,
        Json::Bool(b) => JsonView::Bool(b),
        Json::Unsigned(n) => JsonView::Unsigned(n),
        Json::Negative(n) => JsonView::Negative(n),
        Json::Float(s) => JsonView::Float(s@),
        Json::Text(s) => JsonView::Text(s@),
        Json::List(v) => JsonView::List(
            Seq::new(
                v@.len(),
                |i: int|
                    if 0 <= i < v@.len() {
                        model(v@[i])
                    } else {
                        JsonView::Null
                    },
            ),
        ),
        Json::Object(v) => JsonView::Object(
            Seq::new(
                v@.len(),
                |i: int|
                    if 0 <= i < v@.len() {
                        (v@[i].0@, model(v@[i].1))
                    } else {
                        (Seq::empty(), JsonView::Null)
                    },
            ),
        ),
    }
}

impl View for Json {
    type V = JsonView;

    open spec fn view(&self) -> JsonView {
        model(*self)
    }
}

/// What an optional JSON value holds.
pub open spec fn opt_model(o: Option<Json>) -> Option<JsonView> {
    match o {
        Some(j) => Some(j@),
        None => None,
    }
}

/// What an optional reference to a JSON value holds.
pub open spec fn opt_ref_model(o: Option<&Json>) -> Option<JsonView> {
    match o {
        Some(j) => Some(j@),
        None => None,
    }
}

// ---------------------------------------------------------------------------
// Reading and writing
// ---------------------------------------------------------------------------

/// What `serde_json::from_str` reads from a text; none where it fails.
pub uninterp spec fn parsed(text: Seq<char>) -> Option<JsonView>;

/// The text that `serde_json::Value` shows for a JSON value.
pub uninterp spec fn rendered(j: JsonView) -> Seq<char>;

/// The value type of `serde_json`.
#[verifier::external_type_specification]
#[verifier::external_body]
pub struct ExValue(serde_json::Value);

/// Calls `serde_json::from_str` for a `serde_json::Value`: what it reads depends on the text
/// alone, and is given the name `parsed`.
#[verifier::external_body]
fn read_value(text: &str) -> (r: Option<Json>)
    ensures
        opt_model(r) == parsed(text@),
{
    match serde_json::from_str::<serde_json::Value>(text) {
        Ok(v) => Some(from_value(v)),
        Err(_) => None,
    }
}

/// Turns a `serde_json::Value` into plain data, variant by variant.
#[verifier::external_body]
fn from_value(v: serde_json::Value) -> Json {
    match v {
        serde_json::Value::Null => Json::Null,
        serde_json::Value::Bool(b) => Json::Bool(b),
        serde_json::Value::Number(n) => match (n.as_u64(), n.as_i64()) {
            (Some(u), _) => Json::Unsigned(u),
            (None, Some(i)) => Json::Negative(i),
            (None, None) => Json::Float(n.to_string()),
        },
        serde_json::Value::String(s) => Json::Text(s),
        serde_json::Value::Array(a) => Json::List(a.into_iter().map(from_value).collect()),
        serde_json::Value::Object(m) => Json::Object(
            m.into_iter().map(|(k, x)| (k, from_value(x))).collect(),
        ),
    }
}

/// Turns plain data into a `serde_json::Value`, variant by variant; the text of a number that
/// is no integer is read back by `serde_json::from_str`.
#[verifier::external_body]
fn to_value(j: &Json) -> serde_json::Value {
    match j {
        Json::Null => serde_json::Value::Null,
        Json::Bool(b) => serde_json::Value::from(*b),
        Json::Unsigned(u) => serde_json::Value::from(*u),
        Json::Negative(i) => serde_json::Value::from(*i),
        Json::Float(s) => serde_json::from_str(s).unwrap_or_default(),
        Json::Text(s) => serde_json::Value::from(s.as_str()),
        Json::List(v) => serde_json::Value::Array(v.iter().map(to_value).collect()),
        Json::Object(v) => serde_json::Value::Object(
            v.iter().map(|m| (m.0.clone(), to_value(&m.1))).collect(),
        ),
    }
}

/// Calls `serde_json::Value::to_string`: the text depends on the value alone, and is given the
/// name `rendered`.
#[verifier::external_body]
fn show_value(j: &Json) -> (r: String)
    ensures
        r@ == rendered(j@),
{
    to_value(j).to_string()
}

/// Reads a JSON text.
pub fn parse(text: &str) -> (r: Option<Json>)
    ensures
        opt_model(r) == parsed(text@),
{
    read_value(text)
}

/// Writes a JSON value in compact form.
pub fn render(j: &Json) -> (r: String)
    ensures
        r@ == rendered(j@),
{
    show_value(j)
}

// ---------------------------------------------------------------------------
// Looking inside
// ---------------------------------------------------------------------------

/// The members of an object.
pub open spec fn members(v: Seq<(String, Json)>) -> Seq<(Seq<char>, JsonView)> {
    Seq::new(v.len(), |i: int| (v[i].0@, v[i].1@))
}

/// The value of the first member with the key, from position `from` on.
pub open spec fn member_from(ms: Seq<(Seq<char>, JsonView)>, key: Seq<char>, from: int) -> Option<
    JsonView,
>
    decreases ms.len() - from,
{
    if from < 0 || from >= ms.len() {
        None
    } else if ms[from].0 == key {
        Some(ms[from].1)
    } else {
        member_from(ms, key, from + 1)
    }
}

/// The member of an object with the key; none where there is none, or no object.
pub open spec fn member(j: JsonView, key: Seq<char>) -> Option<JsonView> {
    match j {
        JsonView::Object(ms) => member_from(ms, key, 0),
        _ => None,
    }
}

/// The text in a JSON string.
pub open spec fn text_of(j: JsonView) -> Option<Seq<char>> {
    match j {
        JsonView::Text(s) => Some(s),
        _ => None,
    }
}

/// The number in a JSON integer that is not negative.
pub open spec fn unsigned_of(j: JsonView) -> Option<u64> {
    match j {
        JsonView::Unsigned(n) => Some(n),
        _ => None,
    }
}

/// The number in a JSON integer that fits in 64 bits with a sign.
pub open spec fn signed_of(j: JsonView) -> Option<i64> {
    match j {
        JsonView::Unsigned(n) => if n <= i64::MAX {
            Some(n as i64)
        } else {
            None
        },
        JsonView::Negative(n) => Some(n),
        _ => None,
    }
}

/// The text in the member of an object with the key.
pub open spec fn text_member(j: JsonView, key: Seq<char>) -> Option<Seq<char>> {
    match member(j, key) {
        Some(v) => text_of(v),
        None => None,
    }
}

/// The unsigned number in the member of an object with the key.
pub open spec fn unsigned_member(j: JsonView, key: Seq<char>) -> Option<u64> {
    match member(j, key) {
        Some(v) => unsigned_of(v),
        None => None,
    }
}

/// The text in an optional `&str`.
pub open spec fn opt_str(o: Option<&str>) -> Option<Seq<char>> {
    match o {
        Some(s) => Some(s@),
        None => None,
    }
}

impl Json {
    /// The member of an object with the key.
    pub fn get(&self, key: &str) -> (r: Option<&Json>)
        ensures
            opt_ref_model(r) == member(self@, key@),
    {
        match self {
            Json::Object(v) => {
                let mut i: usize = 0;
                let ghost ms = self@->Object_0;
                while i < v.len()
                    invariant
                        i <= v@.len(),
                        self@ == JsonView::Object(ms),
                        ms.len() == v@.len(),
                        forall|k: int|
                            #![trigger ms[k]]
                            0 <= k < ms.len() ==> ms[k] == (v@[k].0@, v@[k].1@),
                        member_from(ms, key@, 0) == member_from(ms, key@, i as int),
                    decreases v@.len() - i,
                {
                    if text::same(v[i].0.as_str(), key) {
                        return Some(&v[i].1);
                    }
                    i = i + 1;
                }
                None
            },
            _ => None,
        }
    }

    /// The text of a JSON string.
    pub fn as_str(&self) -> (r: Option<&str>)
        ensures
            opt_str(r) == text_of(self@),
    {
        match self {
            Json::Text(s) => Some(s.as_str()),
            _ => None,
        }
    }

    /// The number of a JSON integer that is not negative.
    pub fn as_u64(&self) -> (r: Option<u64>)
        ensures
            r == unsigned_of(self@),
    {
        match self {
            Json::Unsigned(n) => Some(*n),
            _ => None,
        }
    }

    /// The number of a JSON integer that fits in 64 bits with a sign.
    pub fn as_i64(&self) -> (r: Option<i64>)
        ensures
            r == signed_of(self@),
    {
        match self {
            Json::Unsigned(n) => if *n <= i64::MAX as u64 {
                Some(*n as i64)
            } else {
                None
            },
            Json::Negative(n) => Some(*n),
            _ => None,
        }
    }

    /// The text in the member of an object with the key.
    pub fn get_str(&self, key: &str) -> (r: Option<&str>)
        ensures
            opt_str(r) == text_member(self@, key@),
    {
        match self.get(key) {
            Some(v) => v.as_str(),
            None => None,
        }
    }

    /// The unsigned number in the member of an object with the key.
    pub fn get_u64(&self, key: &str) -> (r: Option<u64>)
        ensures
            r == unsigned_member(self@, key@),
    {
        match self.get(key) {
            Some(v) => v.as_u64(),
            None => None,
        }
    }
}

/// A member of an object that is a text.
pub open spec fn text_field(key: Seq<char>, value: Seq<char>) -> (Seq<char>, JsonView) {
    (key, JsonView::Text(value))
}

/// A member of an object that is a text.
pub fn text_entry(key: &str, value: &str) -> (r: (String, Json))
    ensures
        (r.0@, r.1@) == text_field(key@, value@),
{
    (key.to_owned(), Json::Text(value.to_owned()))
}

impl Clone for Json {
    fn clone(&self) -> (r: Self)
        ensures
            r@ == self@,
        decreases self,
    {
        match self {
            Json::Null => Json::Null,
            Json::Bool(b) => Json::Bool(*b),
            Json::Unsigned(n) => Json::Unsigned(*n),
            Json::Negative(n) => Json::Negative(*n),
            Json::Float(s) => Json::Float(s.clone()),
            Json::Text(s) => Json::Text(s.clone()),
            Json::List(v) => {
                let mut out: Vec<Json> = Vec::new();
                let mut i: usize = 0;
                while i < v.len()
                    invariant
                        i <= v@.len(),
                        *self == Json::List(*v),
                        out@.len() == i,
                        forall|k: int| #![trigger out@[k]] 0 <= k < i ==> out@[k]@ == v@[k]@,
                    decreases v@.len() - i,
                {
                    assert(decreases_to!(*self => self->List_0));
                    assert(decreases_to!(self->List_0 => self->List_0@));
                    assert(decreases_to!(self->List_0@ => self->List_0@[i as int]));
                    out.push(v[i].clone());
                    i = i + 1;
                }
                let r = Json::List(out);
                assert(r@->List_0 =~= self@->List_0);
                r
            },
            Json::Object(v) => {
                let mut out: Vec<(String, Json)> = Vec::new();
                let mut i: usize = 0;
                while i < v.len()
                    invariant
                        i <= v@.len(),
                        *self == Json::Object(*v),
                        out@.len() == i,
                        forall|k: int|
                            #![trigger out@[k]]
                            0 <= k < i ==> out@[k].0@ == v@[k].0@ && out@[k].1@ == v@[k].1@,
                    decreases v@.len() - i,
                {
                    assert(decreases_to!(*self => self->Object_0));
                    assert(decreases_to!(self->Object_0 => self->Object_0@));
                    assert(decreases_to!(self->Object_0@ => self->Object_0@[i as int]));
                    assert(decreases_to!(self->Object_0@[i as int] => self->Object_0@[i as int].1));
                    out.push((v[i].0.clone(), v[i].1.clone()));
                    i = i + 1;
                }
                let r = Json::Object(out);
                assert(r@->Object_0 =~= self@->Object_0);
                r
            },
        }
    }
}

// ---------------------------------------------------------------------------
// Laws
// ---------------------------------------------------------------------------

/// The first member with a key is the one that is found, whatever stands before and behind it; a
/// key that no member has leads to none, and so does every key where there is no object.
pub proof fn law_first_member_is_found(
    before: Seq<(Seq<char>, JsonView)>,
    key: Seq<char>,
    value: JsonView,
    after: Seq<(Seq<char>, JsonView)>,
    other: JsonView,
)
    requires
        forall|i: int| #![trigger before[i]] 0 <= i < before.len() ==> before[i].0 != key,
    ensures
        member(JsonView::Object(before + seq![(key, value)] + after), key) == Some(value),
        member(JsonView::Object(before), key) is None,
        !(other is Object) ==> member(other, key) is None,
{
    lemma_member_behind(before, seq![(key, value)] + after, key, 0);
    assert(before + (seq![(key, value)] + after) =~= before + seq![(key, value)] + after);
    lemma_member_behind(before, Seq::empty(), key, 0);
    assert(before + Seq::<(Seq<char>, JsonView)>::empty() =~= before);
}

proof fn lemma_member_behind(
    before: Seq<(Seq<char>, JsonView)>,
    after: Seq<(Seq<char>, JsonView)>,
    key: Seq<char>,
    k: int,
)
    requires
        0 <= k <= before.len(),
        forall|i: int| #![trigger before[i]] 0 <= i < before.len() ==> before[i].0 != key,
    ensures
        member_from(before + after, key, k) == member_from(
            before + after,
            key,
            before.len() as int,
        ),
        after.len() == 0 ==> member_from(before + after, key, k) is None,
        after.len() > 0 && after[0].0 == key ==> member_from(before + after, key, k) == Some(
            after[0].1,
        ),
    decreases before.len() - k,
{
    if k < before.len() {
        assert((before + after)[k] == before[k]);
        lemma_member_behind(before, after, key, k + 1);
    }
}

/// A text is read from a JSON string and a number from a JSON integer, each as it is, and from
/// nothing else; a number without a sign is read with one where it fits.
pub proof fn law_values_are_read_as_they_are(j: JsonView, text: Seq<char>, n: u64, m: i64)
    ensures
        text_of(JsonView::Text(text)) == Some(text),
        unsigned_of(JsonView::Unsigned(n)) == Some(n),
        signed_of(JsonView::Negative(m)) == Some(m),
        signed_of(JsonView::Unsigned(n)) is Some <==> n <= i64::MAX,
        signed_of(JsonView::Unsigned(n)) is Some ==> signed_of(JsonView::Unsigned(n))->0 == n,
        !(j is Text) ==> text_of(j) is None,
        !(j is Unsigned) ==> unsigned_of(j) is None,
        !(j is Unsigned) && !(j is Negative) ==> signed_of(j) is None,
{
}

} // verus!
