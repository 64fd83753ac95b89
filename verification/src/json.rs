//! JSON values, and the text that they are written as.

use crate::text::same;
use vstd::prelude::*;

verus! {

/// A JSON value. The fields of an object keep their order.
#[derive(Debug)]
pub enum Json {
    Null,
    Bool(bool),
    Int(i64),
    Count(u64),
    Text(String),
    List(Vec<Json>),
    Object(Vec<Field>),
}

/// A field of a JSON object.
#[derive(Debug)]
pub struct Field {
    pub name: String,
    pub value: Json,
}

/// A [`Json`] with its texts taken as characters.
pub enum JsonView {
    Null,
    Bool(bool),
    Int(i64),
    Count(u64),
    Text(Seq<char>),
    List(Seq<JsonView>),
    Object(Seq<(Seq<char>, JsonView)>),
}

/// The view of a JSON value.
pub open spec fn json_view(j: Json) -> JsonView
    decreases j,
{
    match j {
        Json::Null => JsonView::Null,
        Json::Bool(b) => JsonView::Bool(b),
        Json::Int(n) => JsonView::Int(n),
        Json::Count(n) => JsonView::Count(n),
        Json::Text(s) => JsonView::Text(s@),
        Json::List(v) => JsonView::List(
            Seq::new(
                v@.len(),
                |i: int|
                    if 0 <= i < v@.len() {
                        json_view(v@[i])
                    } else {
                        JsonView::Null
                    },
            ),
        ),
        Json::Object(v) => JsonView::Object(
            Seq::new(
                v@.len(),
                |i: int|
                    if 0 <= i < v@.len() {
                        (v@[i].name@, json_view(v@[i].value))
                    } else {
                        (Seq::empty(), JsonView::Null)
                    },
            ),
        ),
    }
}

impl View for Json {
    type V = JsonView;

    open spec fn view(&self) -> JsonView {
        json_view(*self)
    }
}

pub open spec fn field_views(v: Seq<Field>) -> Seq<(Seq<char>, JsonView)> {
    v.map_values(|f: Field| (f.name@, f.value@))
}

pub open spec fn json_views(v: Seq<Json>) -> Seq<JsonView> {
    v.map_values(|j: Json| j@)
}

/// The view of an optional text: a text, or null.
pub open spec fn text_or_null(o: Option<Seq<char>>) -> JsonView {
    match o {
        Some(s) => JsonView::Text(s),
        None => JsonView::Null,
    }
}

/// A field with the given name and value.
pub fn field(name: &str, value: Json) -> (r: Field)
    ensures
        (r.name@, r.value@) == (name@, value@),
{
    Field { name: name.to_owned(), value }
}

/// A JSON text.
pub fn text(s: &str) -> (r: Json)
    ensures
        r@ == JsonView::Text(s@),
{
    Json::Text(s.to_owned())
}

/// An object with the given fields.
pub fn object(fields: Vec<Field>) -> (r: Json)
    ensures
        r@ == JsonView::Object(field_views(fields@)),
{
    let r = Json::Object(fields);
    assert(r@->Object_0 =~= field_views(fields@));
    r
}

/// A list of the given values.
pub fn list(values: Vec<Json>) -> (r: Json)
    ensures
        r@ == JsonView::List(json_views(values@)),
{
    let r = Json::List(values);
    assert(r@->List_0 =~= json_views(values@));
    r
}

/// The text of the first of the fields with the given name, where it is a text.
pub open spec fn text_in(fields: Seq<(Seq<char>, JsonView)>, name: Seq<char>) -> Option<Seq<char>>
    decreases fields.len(),
{
    if fields.len() == 0 {
        None
    } else if fields[0].0 == name {
        match fields[0].1 {
            JsonView::Text(s) => Some(s),
            _ => None,
        }
    } else {
        text_in(fields.drop_first(), name)
    }
}

/// The text of an object's field with the given name.
pub open spec fn text_field(value: JsonView, name: Seq<char>) -> Option<Seq<char>> {
    match value {
        JsonView::Object(fields) => text_in(fields, name),
        _ => None,
    }
}

/// The text of an object's field with the given name.
pub fn get_text<'a>(value: &'a Json, name: &str) -> (r: Option<&'a String>)
    ensures
        (match r {
            Some(s) => text_field(value@, name@) == Some(s@),
            None => text_field(value@, name@) is None,
        }),
{
    let fields = match value {
        Json::Object(fields) => fields,
        _ => {
            return None;
        },
    };
    let ghost all = field_views(fields@);
    assert(value@->Object_0 =~= all);
    let mut i: usize = 0;
    assert(all.skip(0) =~= all);
    while i < fields.len()
        invariant
            i <= fields.len(),
            all == field_views(fields@),
            text_field(value@, name@) == text_in(all, name@),
            text_in(all.skip(i as int), name@) == text_in(all, name@),
        decreases fields.len() - i,
    {
        assert(all.skip(i as int)[0] == (fields@[i as int].name@, fields@[i as int].value@));
        assert(all.skip(i as int).drop_first() =~= all.skip(i + 1));
        if same(fields[i].name.as_str(), name) {
            return match &fields[i].value {
                Json::Text(s) => Some(s),
                _ => None,
            };
        }
        i += 1;
    }
    None
}

// -------------------------------------------------------------------------- writing

/// The value type of `serde_json`.
#[verifier::external_type_specification]
#[verifier::external_body]
pub struct ExValue(serde_json::Value);

/// A JSON value in the form that `serde_json` holds it in.
pub uninterp spec fn value_of(j: JsonView) -> serde_json::Value;

/// The text of a JSON value on one line.
pub uninterp spec fn compact_text(v: serde_json::Value) -> Seq<char>;

/// The text of a JSON value over several indented lines.
pub uninterp spec fn pretty_text(v: serde_json::Value) -> Seq<char>;

/// The `serde_json::Value` with the same content: one variant for each, and objects collected
/// field by field. It is a function of the value.
#[verifier::external_body]
fn to_value(j: &Json) -> (r: serde_json::Value)
    ensures
        r == value_of(j@),
{
    match j {
        Json::Null => serde_json::Value::Null,
        Json::Bool(b) => serde_json::Value::Bool(*b),
        Json::Int(n) => serde_json::Value::from(*n),
        Json::Count(n) => serde_json::Value::from(*n),
        Json::Text(s) => serde_json::Value::String(s.clone()),
        Json::List(v) => serde_json::Value::Array(v.iter().map(to_value).collect()),
        Json::Object(v) => serde_json::Value::Object(
            v.iter().map(|f| (f.name.clone(), to_value(&f.value))).collect(),
        ),
    }
}

/// `serde_json::to_string` of a value: a function of it, with no line feed in it.
#[verifier::external_body]
fn value_to_string(v: &serde_json::Value) -> (r: String)
    ensures
        r@ == compact_text(*v),
        !r@.contains('\n'),
{
    serde_json::to_string(v).unwrap()
}

/// `serde_json::to_string_pretty` of a value: a function of it.
#[verifier::external_body]
fn value_to_string_pretty(v: &serde_json::Value) -> (r: String)
    ensures
        r@ == pretty_text(*v),
{
    serde_json::to_string_pretty(v).unwrap()
}

/// Writes a JSON value on one line.
pub fn to_compact(j: &Json) -> (r: String)
    ensures
        r@ == compact_text(value_of(j@)),
        !r@.contains('\n'),
{
    let v = to_value(j);
    value_to_string(&v)
}

/// Writes a JSON value over several indented lines.
pub fn to_pretty(j: &Json) -> (r: String)
    ensures
        r@ == pretty_text(value_of(j@)),
{
    let v = to_value(j);
    value_to_string_pretty(&v)
}

} // verus!
