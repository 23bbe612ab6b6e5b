//! JSON values, as listings are written in them.

use vstd::prelude::*;

verus! {

/// A JSON value.
#[derive(Debug, PartialEq, Eq)]
pub enum Json {
    Null,
    Number(usize),
    Text(String),
    Array(Vec<Json>),
    Object(Vec<(String, Json)>),
}

/// The model of a [`Json`] value. An object maps names to values: its fields have no order, and each name occurs once.
pub ghost enum JsonModel {
    Null,
    Number(nat),
    Text(Seq<char>),
    Array(Seq<JsonModel>),
    Object(Map<Seq<char>, JsonModel>),
}

/// The model of a JSON value.
pub open spec fn json_model(value: Json) -> JsonModel
    decreases value, 0int,
{
    match value {
        Json::Null => JsonModel::Null,
        Json::Number(n) => JsonModel::Number(n as nat),
        Json::Text(s) => JsonModel::Text(s@),
        Json::Array(items) => JsonModel::Array(
            Seq::new(
                items@.len(),
                |i: int|
                    if 0 <= i < items@.len() {
                        json_model(items@[i])
                    } else {
                        arbitrary()
                    },
            ),
        ),
        Json::Object(fields) => JsonModel::Object(fields_model(fields@, fields@.len() as int)),
    }
}

/// The first `n` fields of an object; of those with the same name, the last counts.
pub open spec fn fields_model(fields: Seq<(String, Json)>, n: int) -> Map<Seq<char>, JsonModel>
    decreases fields, n,
{
    if n <= 0 || n > fields.len() {
        Map::empty()
    } else {
        fields_model(fields, n - 1).insert(fields[n - 1].0@, json_model(fields[n - 1].1))
    }
}

/// The object with some fields; of those with the same name, the last counts.
pub open spec fn object(fields: Seq<(Seq<char>, JsonModel)>) -> JsonModel {
    JsonModel::Object(by_name(fields, fields.len() as int))
}

/// The first `n` fields by their names; of those with the same name, the last counts.
pub open spec fn by_name(fields: Seq<(Seq<char>, JsonModel)>, n: int) -> Map<Seq<char>, JsonModel>
    decreases n,
{
    if n <= 0 {
        Map::empty()
    } else {
        by_name(fields, n - 1).insert(fields[n - 1].0, fields[n - 1].1)
    }
}

/// The models of the fields of an object.
pub open spec fn field_models(fields: Seq<(String, Json)>) -> Seq<(Seq<char>, JsonModel)> {
    Seq::new(fields.len(), |i: int| (fields[i].0@, json_model(fields[i].1)))
}

proof fn lemma_fields_by_name(fields: Seq<(String, Json)>, n: int)
    requires
        0 <= n <= fields.len(),
    ensures
        fields_model(fields, n) == by_name(field_models(fields), n),
    decreases n,
{
    if n > 0 {
        lemma_fields_by_name(fields, n - 1);
    }
}

/// The models of the items of an array.
pub open spec fn item_models(items: Seq<Json>) -> Seq<JsonModel> {
    Seq::new(items.len(), |i: int| json_model(items[i]))
}

/// A text.
pub(crate) fn json_string(s: &str) -> (r: Json)
    ensures
        json_model(r) == JsonModel::Text(s@),
{
    Json::Text(s.to_owned())
}

/// An array.
pub(crate) fn json_array(items: Vec<Json>) -> (r: Json)
    ensures
        json_model(r) == JsonModel::Array(item_models(items@)),
{
    let ghost models = item_models(items@);
    let r = Json::Array(items);
    assert(json_model(r)->Array_0 =~= models);
    r
}

/// An object.
pub(crate) fn json_object(fields: Vec<(String, Json)>) -> (r: Json)
    ensures
        json_model(r) == object(field_models(fields@)),
{
    proof {
        lemma_fields_by_name(fields@, fields@.len() as int);
    }
    Json::Object(fields)
}

/// Appends a field.
pub(crate) fn push_field(fields: &mut Vec<(String, Json)>, name: &str, value: Json)
    ensures
        field_models(final(fields)@) == field_models(old(fields)@).push((name@, json_model(value))),
{
    let ghost before = fields@;
    let ghost model = json_model(value);
    fields.push((name.to_owned(), value));
    assert(field_models(fields@) =~= field_models(before).push((name@, model)));
}

/// A value of the `serde_json` crate.
#[verifier::external_type_specification]
#[verifier::external_body]
pub struct ExJsonValue(serde_json::Value);

/// What a value of the `serde_json` crate holds.
pub uninterp spec fn value_model(value: serde_json::Value) -> JsonModel;

/// The pretty-printed form that the `serde_json` crate gives a JSON value.
pub uninterp spec fn json_text(value: JsonModel) -> Seq<char>;

/// What some values hold.
pub open spec fn value_models(values: Seq<serde_json::Value>) -> Seq<JsonModel> {
    Seq::new(values.len(), |i: int| value_model(values[i]))
}

/// A map of the `serde_json` crate.
#[verifier::external_type_specification]
#[verifier::external_body]
#[verifier::reject_recursive_types(K)]
#[verifier::reject_recursive_types(V)]
pub struct ExJsonMap<K, V>(serde_json::Map<K, V>);

/// What a map of the `serde_json` crate holds, by name.
pub uninterp spec fn map_model(map: serde_json::Map<String, serde_json::Value>) -> Map<Seq<char>, JsonModel>;

/// `serde_json::Value::Null`.
#[verifier::external_body]
fn null_value() -> (r: serde_json::Value)
    ensures
        value_model(r) == JsonModel::Null,
{
    serde_json::Value::Null
}

/// A number, by `serde_json::Value::from`.
#[verifier::external_body]
fn number_value(n: usize) -> (r: serde_json::Value)
    ensures
        value_model(r) == JsonModel::Number(n as nat),
{
    serde_json::Value::from(n)
}

/// A text, by `serde_json::Value::from`.
#[verifier::external_body]
fn text_value(s: &str) -> (r: serde_json::Value)
    ensures
        value_model(r) == JsonModel::Text(s@),
{
    serde_json::Value::from(s)
}

/// `serde_json::Value::Array`: the values in their order.
#[verifier::external_body]
fn array_value(items: Vec<serde_json::Value>) -> (r: serde_json::Value)
    ensures
        value_model(r) == JsonModel::Array(value_models(items@)),
{
    serde_json::Value::Array(items)
}

/// An empty map, by `serde_json::Map::new`.
#[verifier::external_body]
fn empty_map() -> (r: serde_json::Map<String, serde_json::Value>)
    ensures
        forall|name: Seq<char>| !map_model(r).contains_key(name),
{
    serde_json::Map::new()
}

/// Puts a value under a name, by `serde_json::Map::insert`, which replaces a value that was there.
#[verifier::external_body]
fn insert_value(fields: &mut serde_json::Map<String, serde_json::Value>, name: String, value: serde_json::Value)
    ensures
        map_model(*final(fields)) == map_model(*old(fields)).insert(name@, value_model(value)),
{
    fields.insert(name, value);
}

/// `serde_json::Value::Object`.
#[verifier::external_body]
fn object_value(map: serde_json::Map<String, serde_json::Value>) -> (r: serde_json::Value)
    ensures
        value_model(r) == JsonModel::Object(map_model(map)),
{
    serde_json::Value::Object(map)
}

/// The pretty-printed form of a value by `serde_json::to_string_pretty`: a function of what the value holds, since the keys of
/// a `serde_json::Map` are walked in sorted order. Printing a `serde_json::Value` does not fail.
#[verifier::external_body]
fn print_value(value: &serde_json::Value) -> (r: String)
    ensures
        r@ == json_text(value_model(*value)),
{
    serde_json::to_string_pretty(value).unwrap()
}

/// A JSON value as one of the `serde_json` crate.
fn to_value(value: &Json) -> (r: serde_json::Value)
    ensures
        value_model(r) == json_model(*value),
    decreases value,
{
    match value {
        Json::Null => null_value(),
        Json::Number(n) => number_value(*n),
        Json::Text(s) => text_value(s.as_str()),
        Json::Array(items) => {
            let values = to_values(items);
            assert(value_models(values@) =~= json_model(*value)->Array_0);
            array_value(values)
        },
        Json::Object(fields) => object_value(to_map(fields)),
    }
}

/// Some JSON values as those of the `serde_json` crate.
fn to_values(items: &Vec<Json>) -> (r: Vec<serde_json::Value>)
    ensures
        value_models(r@) == item_models(items@),
    decreases items,
{
    let mut values: Vec<serde_json::Value> = Vec::new();
    for i in 0..items.len()
        invariant
            values@.len() == i,
            forall|j: int| 0 <= j < i ==> value_model(#[trigger] values@[j]) == json_model(items@[j]),
    {
        values.push(to_value(&items[i]));
    }
    assert(value_models(values@) =~= item_models(items@));
    values
}

/// Some fields as a map of the `serde_json` crate.
fn to_map(fields: &Vec<(String, Json)>) -> (r: serde_json::Map<String, serde_json::Value>)
    ensures
        map_model(r) == fields_model(fields@, fields@.len() as int),
    decreases fields,
{
    let mut map = empty_map();
    assert(map_model(map) =~= fields_model(fields@, 0));
    for i in 0..fields.len()
        invariant
            map_model(map) == fields_model(fields@, i as int),
    {
        let field = &fields[i];
        insert_value(&mut map, field.0.clone(), to_value(&field.1));
    }
    map
}

/// The pretty-printed form of a JSON value.
pub(crate) fn render_json(value: &Json) -> (r: String)
    ensures
        r@ == json_text(json_model(*value)),
{
    print_value(&to_value(value))
}

} // verus!
