//! Structured receipts.

use crate::text::views;
use vstd::prelude::*;
use vstd::string::*;

verus! {

/// A JSON value.
#[derive(Debug)]
pub enum Json {
    Null,
    Bool(bool),
    Number(u64),
    Text(String),
    List(Vec<Json>),
    Object(Vec<(String, Json)>),
}

/// The contents of a JSON value: an object is a map from its keys.
#[verifier::ext_equal]
pub enum JsonView {
    Null,
    Bool(bool),
    Number(u64),
    Text(Seq<char>),
    List(Seq<JsonView>),
    Object(Map<Seq<char>, JsonView>),
}

/// The contents of a JSON value.
pub open spec fn json_view(j: Json) -> JsonView
    decreases j, 0nat,
{
    match j {
        Json::Null => JsonView::Null,
        Json::Bool(b) => JsonView::Bool(b),
        Json::Number(n) => JsonView::Number(n),
        Json::Text(s) => JsonView::Text(s@),
        Json::List(v) => JsonView::List(item_views(v, v@.len())),
        Json::Object(v) => JsonView::Object(field_views(v, v@.len())),
    }
}

/// The contents of the first `n` values of a list.
pub open spec fn item_views(v: Vec<Json>, n: nat) -> Seq<JsonView>
    decreases v, n,
{
    if n == 0 || n > v@.len() {
        Seq::empty()
    } else {
        item_views(v, (n - 1) as nat).push(json_view(v[n - 1]))
    }
}

/// The map of the first `n` fields of an object; of two fields with one key the later counts.
pub open spec fn field_views(v: Vec<(String, Json)>, n: nat) -> Map<Seq<char>, JsonView>
    decreases v, n,
{
    if n == 0 || n > v@.len() {
        Map::empty()
    } else {
        field_views(v, (n - 1) as nat).insert(v[n - 1].0@, json_view(v[n - 1].1))
    }
}

impl View for Json {
    type V = JsonView;

    open spec fn view(&self) -> JsonView {
        json_view(*self)
    }
}

proof fn lemma_fields_agree(v: Vec<(String, Json)>, w: Vec<(String, Json)>, n: nat)
    requires
        n <= v@.len(),
        n <= w@.len(),
        forall|i: int| 0 <= i < n ==> v@[i] == w@[i],
    ensures
        field_views(v, n) == field_views(w, n),
    decreases n,
{
    if n > 0 {
        lemma_fields_agree(v, w, (n - 1) as nat);
        assert(v@[n - 1] == w@[n - 1]);
    }
}

proof fn lemma_items(v: Vec<Json>, n: nat)
    requires
        n <= v@.len(),
    ensures
        item_views(v, n) == Seq::new(n, |i: int| json_view(v@[i])),
    decreases n,
{
    if n > 0 {
        lemma_items(v, (n - 1) as nat);
    }
    assert(item_views(v, n) =~= Seq::new(n, |i: int| json_view(v@[i])));
}

/// An object without fields.
pub open spec fn no_fields() -> Map<Seq<char>, JsonView> {
    Map::empty()
}

/// An object under construction.
pub struct JsonObject {
    fields: Vec<(String, Json)>,
}

impl View for JsonObject {
    type V = Map<Seq<char>, JsonView>;

    closed spec fn view(&self) -> Map<Seq<char>, JsonView> {
        field_views(self.fields, self.fields@.len())
    }
}

impl JsonObject {
    /// No fields.
    pub fn new() -> (r: JsonObject)
        ensures
            r@ == no_fields(),
    {
        JsonObject { fields: Vec::new() }
    }

    /// The object with one more field.
    pub fn field(self, key: &str, value: Json) -> (r: JsonObject)
        ensures
            r@ == self@.insert(key@, value@),
    {
        let ghost before = self.fields;
        let mut fields = self.fields;
        fields.push((key.to_owned(), value));
        proof {
            lemma_fields_agree(before, fields, before@.len());
        }
        JsonObject { fields }
    }

    /// The object as a value.
    pub fn done(self) -> (r: Json)
        ensures
            r@ == JsonView::Object(self@),
    {
        Json::Object(self.fields)
    }
}

/// A list of texts.
pub open spec fn text_list(s: Seq<Seq<char>>) -> JsonView {
    JsonView::List(Seq::new(s.len(), |i: int| JsonView::Text(s[i])))
}

/// A list of numbers.
pub open spec fn number_list(s: Seq<u64>) -> JsonView {
    JsonView::List(Seq::new(s.len(), |i: int| JsonView::Number(s[i])))
}

/// A number, or null.
pub open spec fn number_or_null(n: Option<u64>) -> JsonView {
    match n {
        Some(x) => JsonView::Number(x),
        None => JsonView::Null,
    }
}

/// A text, or null.
pub open spec fn text_or_null(s: Option<Seq<char>>) -> JsonView {
    match s {
        Some(x) => JsonView::Text(x),
        None => JsonView::Null,
    }
}

/// A truth value, or null.
pub open spec fn bool_or_null(b: Option<bool>) -> JsonView {
    match b {
        Some(x) => JsonView::Bool(x),
        None => JsonView::Null,
    }
}

/// The contents of a list of values.
pub open spec fn list_view(s: Seq<Json>) -> JsonView {
    JsonView::List(Seq::new(s.len(), |i: int| json_view(s[i])))
}

impl Json {
    /// A text.
    pub fn text(s: &str) -> (r: Json)
        ensures
            r@ == JsonView::Text(s@),
    {
        Json::Text(s.to_owned())
    }

    /// A count.
    pub fn count(n: usize) -> (r: Json)
        ensures
            r@ == JsonView::Number(n as u64),
    {
        Json::Number(n as u64)
    }

    /// A list of values.
    pub fn list(v: Vec<Json>) -> (r: Json)
        ensures
            r@ == list_view(v@),
    {
        proof {
            lemma_items(v, v@.len());
        }
        Json::List(v)
    }

    /// A list of texts.
    pub fn texts(v: &Vec<String>) -> (r: Json)
        ensures
            r@ == text_list(views(v@)),
    {
        let mut out: Vec<Json> = Vec::new();
        let mut i: usize = 0;
        while i < v.len()
            invariant
                i <= v.len(),
                out.len() == i,
                forall|j: int|
                    0 <= j < i ==> json_view(#[trigger] out@[j]) == JsonView::Text(v@[j]@),
            decreases v.len() - i,
        {
            out.push(Json::Text(v[i].clone()));
            i += 1;
        }
        proof {
            let a = Seq::new(out@.len(), |j: int| json_view(out@[j]));
            let b = Seq::new(views(v@).len(), |j: int| JsonView::Text(views(v@)[j]));
            assert(a =~= b);
        }
        Json::list(out)
    }

    /// A list of numbers.
    pub fn numbers(v: &Vec<u64>) -> (r: Json)
        ensures
            r@ == number_list(v@),
    {
        let mut out: Vec<Json> = Vec::new();
        let mut i: usize = 0;
        while i < v.len()
            invariant
                i <= v.len(),
                out.len() == i,
                forall|j: int|
                    0 <= j < i ==> json_view(#[trigger] out@[j]) == JsonView::Number(v@[j]),
            decreases v.len() - i,
        {
            out.push(Json::Number(v[i]));
            i += 1;
        }
        proof {
            let a = Seq::new(out@.len(), |j: int| json_view(out@[j]));
            let b = Seq::new(v@.len(), |j: int| JsonView::Number(v@[j]));
            assert(a =~= b);
        }
        Json::list(out)
    }

    /// A number, or null.
    pub fn opt_number(n: Option<u64>) -> (r: Json)
        ensures
            r@ == number_or_null(n),
    {
        match n {
            Some(x) => Json::Number(x),
            None => Json::Null,
        }
    }

    /// A text, or null.
    pub fn opt_text(s: &Option<String>) -> (r: Json)
        ensures
            r@ == text_or_null(crate::text::opt_view(*s)),
    {
        match s {
            Some(x) => Json::Text(x.clone()),
            None => Json::Null,
        }
    }

    /// A truth value, or null.
    pub fn opt_bool(b: Option<bool>) -> (r: Json)
        ensures
            r@ == bool_or_null(b),
    {
        match b {
            Some(x) => Json::Bool(x),
            None => Json::Null,
        }
    }
}

/// A JSON value of `serde_json`.
#[verifier::external_type_specification]
#[verifier::external_body]
pub struct ExValue(serde_json::Value);

/// The fields of a JSON object of `serde_json`.
#[verifier::external_type_specification]
#[verifier::external_body]
#[verifier::reject_recursive_types(K)]
#[verifier::reject_recursive_types(V)]
pub struct ExObject<K, V>(serde_json::Map<K, V>);

/// What a `serde_json` value holds.
pub uninterp spec fn value_contents(v: serde_json::Value) -> JsonView;

/// What the fields of a `serde_json` object hold, by key.
pub uninterp spec fn object_contents(m: serde_json::Map<String, serde_json::Value>) -> Map<
    Seq<char>,
    JsonView,
>;

/// The text that `serde_json` writes for a value.
pub uninterp spec fn compact_text(j: JsonView) -> Seq<char>;

/// `serde_json::Value::Null` holds null.
#[verifier::external_body]
fn null_value() -> (r: serde_json::Value)
    ensures
        value_contents(r) == JsonView::Null,
{
    serde_json::Value::Null
}

/// `serde_json::Value::Bool` holds the given truth value.
#[verifier::external_body]
fn bool_value(b: bool) -> (r: serde_json::Value)
    ensures
        value_contents(r) == JsonView::Bool(b),
{
    serde_json::Value::Bool(b)
}

/// `serde_json::Value::from` on a `u64` gives a value that holds that number.
#[verifier::external_body]
fn number_value(n: u64) -> (r: serde_json::Value)
    ensures
        value_contents(r) == JsonView::Number(n),
{
    serde_json::Value::from(n)
}

/// `serde_json::Value::String` holds the given text.
#[verifier::external_body]
fn text_value(s: String) -> (r: serde_json::Value)
    ensures
        value_contents(r) == JsonView::Text(s@),
{
    serde_json::Value::String(s)
}

/// `serde_json::Value::Array` holds the given values in their order.
#[verifier::external_body]
fn array_value(v: Vec<serde_json::Value>) -> (r: serde_json::Value)
    ensures
        value_contents(r) == JsonView::List(
            Seq::new(v@.len(), |i: int| value_contents(v@[i])),
        ),
{
    serde_json::Value::Array(v)
}

/// `serde_json::Map::new` gives an object without fields.
#[verifier::external_body]
fn empty_object() -> (r: serde_json::Map<String, serde_json::Value>)
    ensures
        object_contents(r) == no_fields(),
{
    serde_json::Map::new()
}

/// `serde_json::Map::insert` puts a value under a key, in place of any value there.
#[verifier::external_body]
fn insert_field(
    m: &mut serde_json::Map<String, serde_json::Value>,
    key: String,
    value: serde_json::Value,
)
    ensures
        object_contents(*final(m)) == object_contents(*old(m)).insert(
            key@,
            value_contents(value),
        ),
{
    m.insert(key, value);
}

/// `serde_json::Value::Object` holds the given fields.
#[verifier::external_body]
fn object_value(m: serde_json::Map<String, serde_json::Value>) -> (r: serde_json::Value)
    ensures
        value_contents(r) == JsonView::Object(object_contents(m)),
{
    serde_json::Value::Object(m)
}

/// `to_string` on a `serde_json::Value` writes the value in compact form: the text depends on
/// nothing but what the value holds, since the fields of an object are kept by key.
#[verifier::external_body]
fn value_text(v: &serde_json::Value) -> (r: String)
    ensures
        r@ == compact_text(value_contents(*v)),
{
    v.to_string()
}

/// The value as one of `serde_json`.
pub fn to_value(j: &Json) -> (r: serde_json::Value)
    ensures
        value_contents(r) == j@,
    decreases j,
{
    match j {
        Json::Null => null_value(),
        Json::Bool(b) => bool_value(*b),
        Json::Number(n) => number_value(*n),
        Json::Text(s) => text_value(s.clone()),
        Json::List(v) => {
            let mut out: Vec<serde_json::Value> = Vec::new();
            let mut i: usize = 0;
            while i < v.len()
                invariant
                    i <= v.len(),
                    out.len() == i,
                    decreases_to!(j => v),
                    forall|k: int|
                        0 <= k < i ==> value_contents(#[trigger] out@[k]) == json_view(v@[k]),
                decreases v.len() - i,
            {
                assert(decreases_to!(v => v[i as int]));
                out.push(to_value(&v[i]));
                i += 1;
            }
            proof {
                lemma_items(*v, v@.len());
                assert(Seq::new(out@.len(), |k: int| value_contents(out@[k])) =~= item_views(
                    *v,
                    v@.len(),
                ));
            }
            array_value(out)
        },
        Json::Object(v) => {
            let mut out: serde_json::Map<String, serde_json::Value> = empty_object();
            let mut i: usize = 0;
            while i < v.len()
                invariant
                    i <= v.len(),
                    decreases_to!(j => v),
                    object_contents(out) == field_views(*v, i as nat),
                decreases v.len() - i,
            {
                assert(decreases_to!(v => v[i as int]));
                insert_field(&mut out, v[i].0.clone(), to_value(&v[i].1));
                i += 1;
            }
            object_value(out)
        },
    }
}

/// The line that a receipt prints.
pub fn receipt_line(j: &Json) -> (r: String)
    ensures
        r@ == compact_text(j@),
{
    value_text(&to_value(j))
}

} // verus!
