//! JSON values as plain data.
use serde_json::{Number, Value};
use vstd::prelude::*;
use crate::text::{
    copies_are_replaced_from_the_left, occurs_at, opt_str, opt_text, parse_i64, parsed_i64, replace,
    replaced, same, signed_decimal, signed_numerals_are_read_back, strs,
};

verus! {

broadcast use vstd::string::group_string_axioms;

/// A JSON number: an unsigned integer, a negative integer, or any other number
/// by its numeral.
#[derive(Debug, PartialEq, Eq)]
pub enum JsonNumber {
    Unsigned(u64),
    Negative(i64),
    Other(String),
}

/// A JSON value.
#[derive(Debug, PartialEq, Eq)]
pub enum Json {
    Null,
    Bool(bool),
    Number(JsonNumber),
    Str(String),
    Array(Vec<Json>),
    Object(Vec<(String, Json)>),
}

/// What a JSON value holds.
pub enum JsonView {
    Null,
    Bool(bool),
    Unsigned(u64),
    Negative(i64),
    Other(Seq<char>),
    Str(Seq<char>),
    Array(Seq<JsonView>),
    Object(Seq<(Seq<char>, JsonView)>),
}

impl View for Json {
    type V = JsonView;

    open spec fn view(&self) -> JsonView
        decreases self,
    {
        match self {
            Json::Null => JsonView::Null,
            Json::Bool(b) => JsonView::Bool(*b),
            Json::Number(JsonNumber::Unsigned(n)) => JsonView::Unsigned(*n),
            Json::Number(JsonNumber::Negative(n)) => JsonView::Negative(*n),
            Json::Number(JsonNumber::Other(s)) => JsonView::Other(s@),
            Json::Str(s) => JsonView::Str(s@),
            Json::Array(v) => JsonView::Array(
                Seq::new(
                    v@.len(),
                    |i: int|
                        if 0 <= i < v@.len() {
                            v@[i].view()
                        } else {
                            JsonView::Null
                        },
                ),
            ),
            Json::Object(v) => JsonView::Object(
                Seq::new(
                    v@.len(),
                    |i: int|
                        if 0 <= i < v@.len() {
                            (v@[i].0@, v@[i].1.view())
                        } else {
                            (Seq::empty(), JsonView::Null)
                        },
                ),
            ),
        }
    }
}

/// The values of a vector.
pub open spec fn json_views(v: Seq<Json>) -> Seq<JsonView> {
    Seq::new(v.len(), |i: int| v[i]@)
}

/// The members of a vector of named values.
pub open spec fn member_views(v: Seq<(String, Json)>) -> Seq<(Seq<char>, JsonView)> {
    Seq::new(v.len(), |i: int| (v[i].0@, v[i].1@))
}

/// The view of a list is the list of the views.
pub proof fn lemma_array_view(v: Vec<Json>)
    ensures
        Json::Array(v)@ == JsonView::Array(json_views(v@)),
{
    reveal_with_fuel(<Json as View>::view, 2);
    assert(Json::Array(v)@->Array_0 =~= json_views(v@));
}

/// The view of an object has the views of its members.
pub proof fn lemma_object_view(v: Vec<(String, Json)>)
    ensures
        Json::Object(v)@ == JsonView::Object(member_views(v@)),
{
    reveal_with_fuel(<Json as View>::view, 2);
    assert(Json::Object(v)@->Object_0 =~= member_views(v@));
}

/// The value of an optional JSON value.
pub open spec fn opt_json(v: Option<Json>) -> Option<JsonView> {
    match v {
        Some(j) => Some(j@),
        None => None,
    }
}

/// The member called `key` in a row of members.
pub open spec fn member(members: Seq<(Seq<char>, JsonView)>, key: Seq<char>) -> Option<JsonView>
    decreases members.len(),
{
    if members.len() == 0 {
        None
    } else if members[0].0 == key {
        Some(members[0].1)
    } else {
        member(members.skip(1), key)
    }
}

/// The member called `key`; only an object has members.
pub open spec fn field(v: JsonView, key: Seq<char>) -> Option<JsonView> {
    match v {
        JsonView::Object(o) => member(o, key),
        _ => None,
    }
}

/// The text of a string value.
pub open spec fn string_of(v: Option<JsonView>) -> Option<Seq<char>> {
    match v {
        Some(JsonView::Str(s)) => Some(s),
        _ => None,
    }
}

/// The truth value of a boolean value.
pub open spec fn bool_of(v: Option<JsonView>) -> Option<bool> {
    match v {
        Some(JsonView::Bool(b)) => Some(b),
        _ => None,
    }
}

/// The member called `key`, where it is a string.
pub open spec fn string_field(v: JsonView, key: Seq<char>) -> Option<Seq<char>> {
    string_of(field(v, key))
}

/// A value read as a 64-bit integer: an integer as it is (one that is too large
/// as the largest), a string by the numeral that it holds.
pub open spec fn int_of(v: JsonView) -> Option<int> {
    match v {
        JsonView::Unsigned(n) => Some(if n <= i64::MAX { n as int } else { i64::MAX as int }),
        JsonView::Negative(n) => Some(n as int),
        JsonView::Str(s) => parsed_i64(s),
        _ => None,
    }
}

impl Json {
    /// The member called `key`.
    pub fn get(&self, key: &str) -> (r: Option<&Json>)
        ensures
            match r {
                Some(v) => field(self@, key@) == Some(v@),
                None => field(self@, key@) is None,
            },
    {
        match self {
            Json::Object(o) => {
                proof {
                    lemma_object_view(*o);
                }
                let ghost members = member_views(o@);
                let mut i: usize = 0;
                assert(members.skip(0) =~= members);
                while i < o.len()
                    invariant
                        members == member_views(o@),
                        self@ == JsonView::Object(members),
                        i <= o@.len(),
                        member(members, key@) == member(members.skip(i as int), key@),
                    decreases o@.len() - i,
                {
                    assert(members.skip(i as int)[0] == members[i as int]);
                    assert(members.skip(i as int).skip(1) =~= members.skip(i + 1));
                    if same(o[i].0.as_str(), key) {
                        return Some(&o[i].1);
                    }
                    i = i + 1;
                }
                None
            },
            _ => None,
        }
    }

    /// The text of a string value.
    pub fn as_str(&self) -> (r: Option<&String>)
        ensures
            match r {
                Some(s) => self@ == JsonView::Str(s@),
                None => !(self@ is Str),
            },
    {
        match self {
            Json::Str(s) => Some(s),
            _ => None,
        }
    }

    /// The truth value of a boolean value.
    pub fn as_bool(&self) -> (r: Option<bool>)
        ensures
            r == bool_of(Some(self@)),
    {
        match self {
            Json::Bool(b) => Some(*b),
            _ => None,
        }
    }

    /// The member called `key`, where it is a string.
    pub fn get_string(&self, key: &str) -> (r: Option<String>)
        ensures
            opt_text(r) == string_field(self@, key@),
    {
        match self.get(key) {
            Some(v) => match v.as_str() {
                Some(s) => Some(s.clone()),
                None => None,
            },
            None => None,
        }
    }

    /// The member called `key`, where it is a boolean.
    pub fn get_bool(&self, key: &str) -> (r: Option<bool>)
        ensures
            r == bool_of(field(self@, key@)),
    {
        match self.get(key) {
            Some(v) => v.as_bool(),
            None => None,
        }
    }

    /// A copy of the value.
    pub fn duplicate(&self) -> (r: Json)
        ensures
            r@ == self@,
        decreases self,
    {
        match self {
            Json::Null => Json::Null,
            Json::Bool(b) => Json::Bool(*b),
            Json::Number(JsonNumber::Unsigned(n)) => Json::Number(JsonNumber::Unsigned(*n)),
            Json::Number(JsonNumber::Negative(n)) => Json::Number(JsonNumber::Negative(*n)),
            Json::Number(JsonNumber::Other(s)) => Json::Number(JsonNumber::Other(s.clone())),
            Json::Str(s) => Json::Str(s.clone()),
            Json::Array(v) => {
                let mut out: Vec<Json> = Vec::new();
                let mut i: usize = 0;
                while i < v.len()
                    invariant
                        self == Json::Array(*v),
                        i <= v@.len(),
                        out@.len() == i,
                        forall|k: int| 0 <= k < i ==> (#[trigger] out@[k])@ == v@[k]@,
                    decreases v@.len() - i,
                {
                    proof {
                        assert(decreases_to!(self => self->Array_0));
                        assert(decreases_to!(*v => v@));
                        assert(decreases_to!(v@ => v@[i as int]));
                    }
                    let c = v[i].duplicate();
                    out.push(c);
                    i = i + 1;
                }
                proof {
                    lemma_array_view(*v);
                    lemma_array_view(out);
                    assert(json_views(out@) =~= json_views(v@));
                }
                Json::Array(out)
            },
            Json::Object(v) => {
                let mut out: Vec<(String, Json)> = Vec::new();
                let mut i: usize = 0;
                while i < v.len()
                    invariant
                        self == Json::Object(*v),
                        i <= v@.len(),
                        out@.len() == i,
                        forall|k: int|
                            0 <= k < i ==> (#[trigger] out@[k]).0@ == v@[k].0@ && out@[k].1@
                                == v@[k].1@,
                    decreases v@.len() - i,
                {
                    proof {
                        assert(decreases_to!(self => self->Object_0));
                        assert(decreases_to!(*v => v@));
                        assert(decreases_to!(v@ => v@[i as int]));
                        assert(decreases_to!(v@[i as int] => v@[i as int].1));
                    }
                    let c = v[i].1.duplicate();
                    out.push((v[i].0.clone(), c));
                    i = i + 1;
                }
                proof {
                    lemma_object_view(*v);
                    lemma_object_view(out);
                    assert(member_views(out@) =~= member_views(v@));
                }
                Json::Object(out)
            },
        }
    }
}

/// The value read as a 64-bit integer.
pub fn value_to_i64(value: &Json) -> (r: Option<i64>)
    ensures
        match r {
            Some(n) => int_of(value@) == Some(n as int),
            None => int_of(value@) is None,
        },
{
    match value {
        Json::Number(JsonNumber::Unsigned(n)) => {
            if *n <= 9223372036854775807u64 {
                Some(*n as i64)
            } else {
                Some(i64::MAX)
            }
        },
        Json::Number(JsonNumber::Negative(n)) => Some(*n),
        Json::Str(s) => parse_i64(s.as_str()),
        _ => None,
    }
}

// ---------------------------------------------------------------------------
// Making values
// ---------------------------------------------------------------------------

/// A string value.
pub fn json_str(s: &str) -> (r: Json)
    ensures
        r@ == JsonView::Str(s@),
{
    Json::Str(s.to_string())
}

/// A text as a value; null where there is none.
pub open spec fn str_or_null(s: Option<Seq<char>>) -> JsonView {
    match s {
        Some(t) => JsonView::Str(t),
        None => JsonView::Null,
    }
}

/// A string value; null where there is none.
pub fn json_opt_str(s: Option<&str>) -> (r: Json)
    ensures
        r@ == str_or_null(opt_str(s)),
{
    match s {
        Some(t) => Json::Str(t.to_string()),
        None => Json::Null,
    }
}

/// A number value.
pub fn json_uint(n: u64) -> (r: Json)
    ensures
        r@ == JsonView::Unsigned(n),
{
    Json::Number(JsonNumber::Unsigned(n))
}

/// An array of strings.
pub fn json_strs(v: &Vec<String>) -> (r: Json)
    ensures
        r@ == JsonView::Array(strs(v@).map_values(|s: Seq<char>| JsonView::Str(s))),
{
    let mut out: Vec<Json> = Vec::new();
    let mut i: usize = 0;
    while i < v.len()
        invariant
            i <= v@.len(),
            out@.len() == i,
            forall|k: int| 0 <= k < i ==> (#[trigger] out@[k])@ == JsonView::Str(v@[k]@),
        decreases v@.len() - i,
    {
        out.push(Json::Str(v[i].clone()));
        i = i + 1;
    }
    proof {
        lemma_array_view(out);
        assert(json_views(out@) =~= strs(v@).map_values(|s: Seq<char>| JsonView::Str(s)));
    }
    Json::Array(out)
}

/// A signed integer as a value.
pub open spec fn int_view(n: i64) -> JsonView {
    if n >= 0 {
        JsonView::Unsigned(n as u64)
    } else {
        JsonView::Negative(n)
    }
}

/// A signed integer as a value.
pub fn json_int(n: i64) -> (r: Json)
    ensures
        r@ == int_view(n),
{
    if n >= 0 {
        Json::Number(JsonNumber::Unsigned(n as u64))
    } else {
        Json::Number(JsonNumber::Negative(n))
    }
}

/// The members with one more, where there is a value for it.
pub open spec fn with_member(
    members: Seq<(Seq<char>, JsonView)>,
    key: Seq<char>,
    value: Option<JsonView>,
) -> Seq<(Seq<char>, JsonView)> {
    match value {
        Some(v) => members.push((key, v)),
        None => members,
    }
}

/// Adds a member, where there is a value for it.
pub fn put_member(members: &mut Vec<(String, Json)>, key: &str, value: Option<Json>)
    ensures
        member_views(final(members)@) == with_member(
            member_views(old(members)@),
            key@,
            opt_json(value),
        ),
{
    if let Some(v) = value {
        let ghost before = member_views(members@);
        let ghost view = v@;
        members.push((key.to_string(), v));
        assert(member_views(members@) =~= before.push((key@, view)));
    }
}

/// A copy of an optional value.
pub fn copy_json(v: &Option<Json>) -> (r: Option<Json>)
    ensures
        opt_json(r) == opt_json(*v),
{
    match v {
        Some(j) => Some(j.duplicate()),
        None => None,
    }
}

/// An object with one member.
pub fn object1(k1: &str, v1: Json) -> (r: Json)
    ensures
        r@ == JsonView::Object(seq![(k1@, v1@)]),
{
    let mut out: Vec<(String, Json)> = Vec::new();
    out.push((k1.to_string(), v1));
    proof {
        lemma_object_view(out);
        assert(member_views(out@) =~= seq![(k1@, v1@)]);
    }
    Json::Object(out)
}

/// An object with two members.
pub fn object2(k1: &str, v1: Json, k2: &str, v2: Json) -> (r: Json)
    ensures
        r@ == JsonView::Object(seq![(k1@, v1@), (k2@, v2@)]),
{
    let mut out: Vec<(String, Json)> = Vec::new();
    out.push((k1.to_string(), v1));
    out.push((k2.to_string(), v2));
    proof {
        lemma_object_view(out);
        assert(member_views(out@) =~= seq![(k1@, v1@), (k2@, v2@)]);
    }
    Json::Object(out)
}

/// An object with three members.
pub fn object3(k1: &str, v1: Json, k2: &str, v2: Json, k3: &str, v3: Json) -> (r: Json)
    ensures
        r@ == JsonView::Object(seq![(k1@, v1@), (k2@, v2@), (k3@, v3@)]),
{
    let mut out: Vec<(String, Json)> = Vec::new();
    out.push((k1.to_string(), v1));
    out.push((k2.to_string(), v2));
    out.push((k3.to_string(), v3));
    proof {
        lemma_object_view(out);
        assert(member_views(out@) =~= seq![(k1@, v1@), (k2@, v2@), (k3@, v3@)]);
    }
    Json::Object(out)
}

/// An object with four members.
pub fn object4(k1: &str, v1: Json, k2: &str, v2: Json, k3: &str, v3: Json, k4: &str, v4: Json) -> (r: Json)
    ensures
        r@ == JsonView::Object(seq![(k1@, v1@), (k2@, v2@), (k3@, v3@), (k4@, v4@)]),
{
    let mut out: Vec<(String, Json)> = Vec::new();
    out.push((k1.to_string(), v1));
    out.push((k2.to_string(), v2));
    out.push((k3.to_string(), v3));
    out.push((k4.to_string(), v4));
    proof {
        lemma_object_view(out);
        assert(member_views(out@) =~= seq![(k1@, v1@), (k2@, v2@), (k3@, v3@), (k4@, v4@)]);
    }
    Json::Object(out)
}

/// An object with five members.
pub fn object5(k1: &str, v1: Json, k2: &str, v2: Json, k3: &str, v3: Json, k4: &str, v4: Json, k5: &str, v5: Json) -> (r: Json)
    ensures
        r@ == JsonView::Object(seq![(k1@, v1@), (k2@, v2@), (k3@, v3@), (k4@, v4@), (k5@, v5@)]),
{
    let mut out: Vec<(String, Json)> = Vec::new();
    out.push((k1.to_string(), v1));
    out.push((k2.to_string(), v2));
    out.push((k3.to_string(), v3));
    out.push((k4.to_string(), v4));
    out.push((k5.to_string(), v5));
    proof {
        lemma_object_view(out);
        assert(member_views(out@) =~= seq![(k1@, v1@), (k2@, v2@), (k3@, v3@), (k4@, v4@), (k5@, v5@)]);
    }
    Json::Object(out)
}

// ---------------------------------------------------------------------------
// JSON texts
// ---------------------------------------------------------------------------

/// `serde_json::Value`, carried through as it is.
#[verifier::external_type_specification]
#[verifier::external_body]
pub struct ExJsonValue(serde_json::Value);

/// What `serde_json::from_str` reads out of a text; `None` where the text is no
/// JSON document.
pub uninterp spec fn json_of_text(s: Seq<char>) -> Option<JsonView>;

/// The compact document that `serde_json` writes for a value.
pub uninterp spec fn json_text(v: JsonView) -> Seq<char>;

/// Moves a `serde_json::Value` over into a `Json`, variant by variant. A number
/// that is no 64-bit integer is kept by the numeral that `serde_json` writes
/// for it. Nothing is promised of the result here: `parse_json` names it.
#[verifier::external_body]
fn json_from_value(value: Value) -> Json {
    match value {
        Value::Null => Json::Null,
        Value::Bool(b) => Json::Bool(b),
        Value::Number(n) => Json::Number(match (n.as_u64(), n.as_i64()) {
            (Some(u), _) => JsonNumber::Unsigned(u),
            (None, Some(i)) => JsonNumber::Negative(i),
            (None, None) => JsonNumber::Other(n.to_string()),
        }),
        Value::String(s) => Json::Str(s),
        Value::Array(a) => Json::Array(a.into_iter().map(json_from_value).collect()),
        Value::Object(o) => Json::Object(
            o.into_iter().map(|(k, v)| (k, json_from_value(v))).collect(),
        ),
    }
}

/// Moves a `Json` over into a `serde_json::Value`, variant by variant. A number
/// that is kept by its numeral is read by `str::parse`, which gives back the very
/// number that the numeral was written for. Nothing is promised of the result
/// here: `json_to_text` names what becomes of it.
#[verifier::external_body]
pub(crate) fn json_to_value(value: &Json) -> Value {
    match value {
        Json::Null => Value::Null,
        Json::Bool(b) => Value::Bool(*b),
        Json::Number(JsonNumber::Unsigned(n)) => Value::from(*n),
        Json::Number(JsonNumber::Negative(n)) => Value::from(*n),
        Json::Number(JsonNumber::Other(s)) =>
            s.parse().ok().and_then(Number::from_f64).map(Value::Number).unwrap_or_default(),
        Json::Str(s) => Value::String(s.clone()),
        Json::Array(a) => Value::Array(a.iter().map(json_to_value).collect()),
        Json::Object(o) => Value::Object(
            o.iter().map(|(k, v)| (k.clone(), json_to_value(v))).collect(),
        ),
    }
}

/// `serde_json::from_str` into a `serde_json::Value`. What it reads depends on
/// the text alone and is named, not spelled out.
#[verifier::external_body]
pub(crate) fn parse_json(text: &str) -> (r: Option<Json>)
    ensures
        opt_json(r) == json_of_text(text@),
{
    serde_json::from_str::<Value>(text).ok().map(json_from_value)
}

/// The `Display` of a `serde_json::Value`, which writes the compact document.
/// What it writes depends on the value alone and is named, not spelled out.
#[verifier::external_body]
pub(crate) fn json_to_text(value: &Json) -> (r: String)
    ensures
        r@ == json_text(value@),
{
    json_to_value(value).to_string()
}

/// The compact document of a value.
pub fn document(value: &Json) -> (r: String)
    ensures
        r@ == json_text(value@),
{
    json_to_text(value)
}

/// A value as a reader sees it: a string by its text, anything else by its
/// document.
pub open spec fn shown(v: JsonView) -> Seq<char> {
    match v {
        JsonView::Str(s) => s,
        _ => json_text(v),
    }
}

/// A value as a reader sees it.
pub fn show(value: &Json) -> (r: String)
    ensures
        r@ == shown(value@),
{
    match value {
        Json::Str(s) => s.clone(),
        _ => json_to_text(value),
    }
}

/// The text to search for in an error value: a string as it is, `null` for a
/// null, the document of anything else.
pub fn value_to_searchable_text(value: &Json) -> (r: String)
    ensures
        r@ == searchable(value@),
{
    match value {
        Json::Str(s) => s.clone(),
        Json::Null => "null".to_string(),
        _ => json_to_text(value),
    }
}

/// The text to search for in a value.
pub open spec fn searchable(v: JsonView) -> Seq<char> {
    match v {
        JsonView::Str(s) => s,
        JsonView::Null => "null"@,
        _ => json_text(v),
    }
}

// ---------------------------------------------------------------------------
// Templates
// ---------------------------------------------------------------------------

/// The mark that stands for the output called `key`.
pub open spec fn mark(key: Seq<char>) -> Seq<char> {
    seq!['{', '{'] + key + seq!['}', '}']
}

/// A text with each mark replaced by the output that it stands for, one output
/// after the other.
pub open spec fn filled(s: Seq<char>, outputs: Seq<(Seq<char>, JsonView)>) -> Seq<char>
    decreases outputs.len(),
{
    if outputs.len() == 0 {
        s
    } else {
        replaced(
            filled(s, outputs.drop_last()),
            mark(outputs.last().0),
            shown(outputs.last().1),
        )
    }
}

/// A value with the marks in all its strings filled; the names of members stay.
pub open spec fn rendered(v: JsonView, outputs: Seq<(Seq<char>, JsonView)>) -> JsonView
    decreases v,
{
    match v {
        JsonView::Str(s) => JsonView::Str(filled(s, outputs)),
        JsonView::Array(a) => JsonView::Array(
            Seq::new(
                a.len(),
                |i: int|
                    if 0 <= i < a.len() {
                        rendered(a[i], outputs)
                    } else {
                        JsonView::Null
                    },
            ),
        ),
        JsonView::Object(o) => JsonView::Object(
            Seq::new(
                o.len(),
                |i: int|
                    if 0 <= i < o.len() {
                        (o[i].0, rendered(o[i].1, outputs))
                    } else {
                        (Seq::empty(), JsonView::Null)
                    },
            ),
        ),
        _ => v,
    }
}

fn mark_of(key: &str) -> (r: String)
    ensures
        r@ == mark(key@),
{
    let mut s = String::new();
    s.push('{');
    s.push('{');
    s.append(key);
    s.push('}');
    s.push('}');
    assert(s@ =~= mark(key@));
    s
}

/// The text with each mark filled by the output that it stands for.
pub fn fill_marks(text: &str, outputs: &Vec<(String, Json)>) -> (r: String)
    ensures
        r@ == filled(text@, member_views(outputs@)),
{
    let mut out = text.to_string();
    let ghost all = member_views(outputs@);
    let mut i: usize = 0;
    while i < outputs.len()
        invariant
            all == member_views(outputs@),
            i <= outputs@.len(),
            out@ == filled(text@, all.take(i as int)),
        decreases outputs@.len() - i,
    {
        let needle = mark_of(outputs[i].0.as_str());
        let with = show(&outputs[i].1);
        proof {
            assert(all.take(i + 1).drop_last() =~= all.take(i as int));
        }
        out = replace(out.as_str(), needle.as_str(), with.as_str());
        i = i + 1;
    }
    assert(all.take(i as int) =~= all);
    out
}

fn render(value: &Json, outputs: &Vec<(String, Json)>) -> (r: Json)
    ensures
        r@ == rendered(value@, member_views(outputs@)),
    decreases value,
{
    let ghost outs = member_views(outputs@);
    match value {
        Json::Str(text) => Json::Str(fill_marks(text.as_str(), outputs)),
        Json::Array(items) => {
            let mut out: Vec<Json> = Vec::new();
            let mut i: usize = 0;
            while i < items.len()
                invariant
                    value == Json::Array(*items),
                    outs == member_views(outputs@),
                    i <= items@.len(),
                    out@.len() == i,
                    forall|k: int|
                        0 <= k < i ==> (#[trigger] out@[k])@ == rendered(items@[k]@, outs),
                decreases items@.len() - i,
            {
                proof {
                    assert(decreases_to!(value => value->Array_0));
                    assert(decreases_to!(*items => items@));
                    assert(decreases_to!(items@ => items@[i as int]));
                }
                let r = render(&items[i], outputs);
                out.push(r);
                i = i + 1;
            }
            proof {
                lemma_array_view(*items);
                lemma_array_view(out);
                reveal_with_fuel(rendered, 2);
                assert(json_views(out@) =~= rendered(value@, outs)->Array_0);
            }
            Json::Array(out)
        },
        Json::Object(items) => {
            let mut out: Vec<(String, Json)> = Vec::new();
            let mut i: usize = 0;
            while i < items.len()
                invariant
                    value == Json::Object(*items),
                    outs == member_views(outputs@),
                    i <= items@.len(),
                    out@.len() == i,
                    forall|k: int|
                        0 <= k < i ==> (#[trigger] out@[k]).0@ == items@[k].0@ && out@[k].1@
                            == rendered(items@[k].1@, outs),
                decreases items@.len() - i,
            {
                proof {
                    assert(decreases_to!(value => value->Object_0));
                    assert(decreases_to!(*items => items@));
                    assert(decreases_to!(items@ => items@[i as int]));
                    assert(decreases_to!(items@[i as int] => items@[i as int].1));
                }
                let r = render(&items[i].1, outputs);
                out.push((items[i].0.clone(), r));
                i = i + 1;
            }
            proof {
                lemma_object_view(*items);
                lemma_object_view(out);
                reveal_with_fuel(rendered, 2);
                assert(member_views(out@) =~= rendered(value@, outs)->Object_0);
            }
            Json::Object(out)
        },
        other => other.duplicate(),
    }
}

/// The value with the marks in all its strings filled.
pub fn render_template(value: Json, outputs: &Vec<(String, Json)>) -> (r: Json)
    ensures
        r@ == rendered(value@, member_views(outputs@)),
{
    render(&value, outputs)
}

// ---------------------------------------------------------------------------
// What these operations do
// ---------------------------------------------------------------------------

/// An object has this value under this name.
pub open spec fn says(v: JsonView, key: Seq<char>, value: JsonView) -> bool {
    v is Object && v->Object_0.contains((key, value))
}

/// An object has as many members.
pub open spec fn has_members(v: JsonView, n: nat) -> bool {
    v is Object && v->Object_0.len() == n
}

/// An object says what each of its members says.
pub proof fn lemma_says(members: Seq<(Seq<char>, JsonView)>)
    ensures
        forall|i: int|
            0 <= i < members.len() ==> says(
                JsonView::Object(members),
                (#[trigger] members[i]).0,
                members[i].1,
            ),
{
    assert forall|i: int| 0 <= i < members.len() implies says(
        JsonView::Object(members),
        (#[trigger] members[i]).0,
        members[i].1,
    ) by {
        assert(members.contains(members[i]));
    }
}

/// The first member of a name counts; a name that no member has stands for nothing,
/// nor does any name in a value that is no object.
pub proof fn the_first_member_counts(v: JsonView, key: Seq<char>)
    ensures
        match field(v, key) {
            Some(x) => v is Object && exists|i: int|
                {
                    &&& 0 <= i < v->Object_0.len()
                    &&& #[trigger] v->Object_0[i] == (key, x)
                    &&& forall|j: int| 0 <= j < i ==> (#[trigger] v->Object_0[j]).0 != key
                },
            None => v is Object ==> forall|j: int|
                0 <= j < v->Object_0.len() ==> (#[trigger] v->Object_0[j]).0 != key,
        },
        !(v is Object) ==> field(v, key) is None,
    decreases v->Object_0.len(),
{
    if v is Object {
        let o = v->Object_0;
        if o.len() > 0 {
            if o[0].0 == key {
                assert(o[0] == (key, o[0].1));
            } else {
                let rest = o.skip(1);
                the_first_member_counts(JsonView::Object(rest), key);
                assert forall|j: int| 0 < j < o.len() implies #[trigger] o[j] == rest[j - 1] by {}
                if let Some(x) = field(v, key) {
                    let i = choose|i: int|
                        {
                            &&& 0 <= i < rest.len()
                            &&& #[trigger] rest[i] == (key, x)
                            &&& forall|j: int| 0 <= j < i ==> (#[trigger] rest[j]).0 != key
                        };
                    assert(o[i + 1] == (key, x));
                }
            }
        }
    }
}

/// A string member is read as its text, a truth value as itself; a member of another
/// kind is read as neither.
pub proof fn members_are_read_by_their_kind(v: JsonView, key: Seq<char>)
    ensures
        match field(v, key) {
            Some(JsonView::Str(s)) => string_field(v, key) == Some(s) && bool_of(field(v, key))
                is None,
            Some(JsonView::Bool(b)) => string_field(v, key) is None && bool_of(field(v, key))
                == Some(b),
            _ => string_field(v, key) is None && bool_of(field(v, key)) is None,
        },
{
}

/// An integer is read back from the value that it is written as, and from its
/// numeral in a string; one that is too large is read as the largest.
pub proof fn integers_are_read_back(n: i64, m: u64)
    ensures
        int_of(int_view(n)) == Some(n as int),
        int_of(JsonView::Str(signed_decimal(n as int))) == Some(n as int),
        m > i64::MAX ==> int_of(JsonView::Unsigned(m)) == Some(i64::MAX as int),
        int_of(JsonView::Null) is None,
        int_of(JsonView::Bool(m > 0)) is None,
{
    signed_numerals_are_read_back(n);
}

/// A member is added behind the others where there is a value for it; else nothing is
/// added.
pub proof fn members_are_added_where_there_is_a_value(
    members: Seq<(Seq<char>, JsonView)>,
    key: Seq<char>,
    value: JsonView,
)
    ensures
        with_member(members, key, None) == members,
        with_member(members, key, Some(value)).len() == members.len() + 1,
        with_member(members, key, Some(value)).last() == (key, value),
        with_member(members, key, Some(value)).drop_last() == members,
{
}

/// What the members with one more hold.
pub proof fn lemma_with_member(
    members: Seq<(Seq<char>, JsonView)>,
    key: Seq<char>,
    value: Option<JsonView>,
)
    ensures
        forall|m: (Seq<char>, JsonView)|
            #[trigger] with_member(members, key, value).contains(m) <==> members.contains(m)
                || value is Some && m == (key, value->Some_0),
{
    let all = with_member(members, key, value);
    assert forall|m: (Seq<char>, JsonView)| #[trigger] all.contains(m) <==> members.contains(m)
        || value is Some && m == (key, value->Some_0) by {
        if members.contains(m) {
            let i = choose|i: int| 0 <= i < members.len() && members[i] == m;
            assert(all[i] == m);
        }
        if value is Some && m == (key, value->Some_0) {
            assert(all[members.len() as int] == m);
        }
        if all.contains(m) {
            let i = choose|i: int| 0 <= i < all.len() && all[i] == m;
            if i < members.len() {
                assert(members[i] == m);
            }
        }
    }
}

/// A mark is replaced by the output that it names, wherever it stands: a string shows
/// as its text, anything else as its document.
pub proof fn marks_stand_for_outputs(
    a: Seq<char>,
    key: Seq<char>,
    value: JsonView,
    b: Seq<char>,
)
    requires
        forall|j: int| 0 <= j < a.len() ==> !occurs_at(a + mark(key) + b, mark(key), j),
    ensures
        filled(a + mark(key) + b, seq![(key, value)]) == a + shown(value) + filled(
            b,
            seq![(key, value)],
        ),
        value is Str ==> shown(value) == value->Str_0,
        !(value is Str) ==> shown(value) == json_text(value),
        mark(key).len() == key.len() + 4,
        mark(key).subrange(2, 2 + key.len() as int) == key,
        mark(key)[0] == '{' && mark(key)[1] == '{',
        mark(key)[key.len() as int + 2] == '}' && mark(key)[key.len() as int + 3] == '}',
{
    let n = mark(key);
    let s = a + n + b;
    let outputs = seq![(key, value)];
    assert(outputs.drop_last().len() == 0);
    assert(filled(s, outputs.drop_last()) == s);
    assert(filled(b, outputs.drop_last()) == b);
    assert(s.subrange(a.len() as int, a.len() as int + n.len()) =~= n);
    assert(occurs_at(s, n, a.len() as int));
    copies_are_replaced_from_the_left(s, n, shown(value), a.len() as int);
    assert(s.take(a.len() as int) =~= a);
    assert(s.skip(a.len() as int + n.len()) =~= b);
    assert(mark(key).subrange(2, 2 + key.len() as int) =~= key);
}

/// A text without marks stays as it is.
pub proof fn texts_without_marks_stay(s: Seq<char>, outputs: Seq<(Seq<char>, JsonView)>)
    requires
        forall|i: int, j: int|
            0 <= i < outputs.len() && 0 <= j < s.len() ==> !#[trigger] occurs_at(
                s,
                mark(outputs[i].0),
                j,
            ),
    ensures
        filled(s, outputs) == s,
    decreases outputs.len(),
{
    if outputs.len() > 0 {
        let rest = outputs.drop_last();
        assert forall|i: int, j: int|
            0 <= i < rest.len() && 0 <= j < s.len() implies !#[trigger] occurs_at(
            s,
            mark(rest[i].0),
            j,
        ) by {
            assert(outputs[i] == rest[i]);
        }
        texts_without_marks_stay(s, rest);
        let n = mark(outputs.last().0);
        assert(outputs.last() == outputs[outputs.len() - 1]);
        assert(n.len() > 0);
        copies_are_replaced_from_the_left(s, n, shown(outputs.last().1), s.len() as int);
    }
}

/// Filling in a value touches its strings alone: lists and objects keep their length
/// and their names, whatever stands in them is filled in its place, and everything
/// else stays.
pub proof fn filling_keeps_the_shape(v: JsonView, outputs: Seq<(Seq<char>, JsonView)>)
    ensures
        match v {
            JsonView::Str(s) => rendered(v, outputs) == JsonView::Str(filled(s, outputs)),
            JsonView::Array(a) => {
                let r = rendered(v, outputs);
                &&& r is Array
                &&& r->Array_0.len() == a.len()
                &&& forall|i: int|
                    0 <= i < a.len() ==> #[trigger] r->Array_0[i] == rendered(a[i], outputs)
            },
            JsonView::Object(o) => {
                let r = rendered(v, outputs);
                &&& r is Object
                &&& r->Object_0.len() == o.len()
                &&& forall|i: int|
                    0 <= i < o.len() ==> #[trigger] r->Object_0[i] == (o[i].0, rendered(
                        o[i].1,
                        outputs,
                    ))
            },
            _ => rendered(v, outputs) == v,
        },
{
}

/// What is searched in a value is its text if it is one, the word for nothing if it is
/// nothing, and else its document.
pub proof fn values_are_searched_as_they_read(v: JsonView)
    ensures
        v is Str ==> searchable(v) == v->Str_0,
        v is Null ==> searchable(v) == "null"@,
        !(v is Str) && !(v is Null) ==> searchable(v) == json_text(v),
{
}

/// An integer is written as an unsigned number unless it is negative.
pub proof fn only_negative_integers_are_signed(n: i64)
    ensures
        n >= 0 ==> int_view(n) == JsonView::Unsigned(n as u64),
        n < 0 ==> int_view(n) == JsonView::Negative(n),
{
}

} // verus!
