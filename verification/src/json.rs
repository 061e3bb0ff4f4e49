//! JSON: the mathematical model of a value, the `serde_json` calls behind it, and
//! the texts that the HTTP bodies are put together from.
use crate::numeral::decimal_text;
use crate::text::comes_before;
use serde_json::Value;
use vstd::prelude::*;
use vstd::string::*;

verus! {

// ---------------------------------------------------------------------------
// The model and the calls into `serde_json`
// ---------------------------------------------------------------------------
/// A JSON value as a mathematical object.
///
/// A number is modelled by the text that `serde_json` prints for it, an object by
/// the map of its members.
pub enum Json {
    Null,
    Bool(bool),
    Number(Seq<char>),
    Text(Seq<char>),
    Array(Seq<Json>),
    Object(Map<Seq<char>, Json>),
}

impl Json {
    /// The member of an object under a key; nothing in any other value.
    pub open spec fn get(self, key: Seq<char>) -> Option<Json> {
        match self {
            Json::Object(members) => if members.contains_key(key) {
                Some(members[key])
            } else {
                None
            },
            _ => None,
        }
    }
}

/// The `serde_json` value, an opaque tree.
#[verifier::external_type_specification]
#[verifier::external_body]
pub struct ExValue(serde_json::Value);

/// The members of a `serde_json` object.
#[verifier::external_type_specification]
#[verifier::external_body]
#[verifier::reject_recursive_types(K)]
#[verifier::reject_recursive_types(V)]
pub struct ExMembers<K, V>(serde_json::Map<K, V>);

/// What a `serde_json` value holds.
pub uninterp spec fn json_of(value: serde_json::Value) -> Json;

/// What the members of a `serde_json` object hold.
pub uninterp spec fn members_of(
    members: serde_json::Map<String, serde_json::Value>,
) -> Map<Seq<char>, Json>;

/// The compact text that `serde_json` prints for a value.
pub uninterp spec fn json_text(json: Json) -> Seq<char>;

/// What `serde_json` reads a text in UTF-8 as.
pub uninterp spec fn json_read(bytes: Seq<u8>) -> Option<Json>;

/// Whether a text is printed as it is: it has no quote, no backslash and no control
/// character below a space.
pub open spec fn is_plain(text: Seq<char>) -> bool {
    forall|i: int|
        0 <= i < text.len() ==> (#[trigger] text[i]) as u32 >= 0x20 && text[i] != '"' && text[i]
            != '\\'
}

/// A text as JSON.
pub open spec fn string_text(text: Seq<char>) -> Seq<char> {
    if is_plain(text) {
        seq!['"'] + text + seq!['"']
    } else {
        json_text(Json::Text(text))
    }
}

/// A truth value as JSON.
pub open spec fn flag_text(flag: bool) -> Seq<char> {
    if flag {
        "true"@
    } else {
        "false"@
    }
}

/// Texts with a comma between two.
pub open spec fn comma_separated(texts: Seq<Seq<char>>) -> Seq<char>
    decreases texts.len(),
{
    if texts.len() == 0 {
        Seq::empty()
    } else if texts.len() == 1 {
        texts[0]
    } else {
        comma_separated(texts.drop_last()).push(',') + texts.last()
    }
}

/// The members of an object as texts: `"key":value`.
pub open spec fn member_texts(fields: Seq<(Seq<char>, Seq<char>)>) -> Seq<Seq<char>> {
    Seq::new(fields.len(), |i: int| string_text(fields[i].0) + seq![':'] + fields[i].1)
}

/// An object whose members stand in the given order, their values already in JSON.
pub open spec fn object_text(fields: Seq<(Seq<char>, Seq<char>)>) -> Seq<char> {
    seq!['{'] + comma_separated(member_texts(fields)) + seq!['}']
}

/// Whether these are the keys of an object in ascending order.
pub open spec fn are_sorted_keys(keys: Seq<Seq<char>>, members: Map<Seq<char>, Json>) -> bool {
    &&& forall|key: Seq<char>| members.contains_key(key) <==> keys.contains(key)
    &&& forall|i: int, j: int|
        0 <= i < j < keys.len() ==> comes_before(#[trigger] keys[i], #[trigger] keys[j])
}

/// The keys of an object in ascending order.
pub open spec fn sorted_keys(members: Map<Seq<char>, Json>) -> Seq<Seq<char>> {
    choose|keys: Seq<Seq<char>>| are_sorted_keys(keys, members)
}

/// The compact text of a value, without white space, the members of an object in the order
/// of their keys.
pub open spec fn printed(json: Json) -> Seq<char>
    decreases json,
{
    match json {
        Json::Null => "null"@,
        Json::Bool(flag) => flag_text(flag),
        Json::Number(number) => number,
        Json::Text(text) => string_text(text),
        Json::Array(items) => seq!['['] + comma_separated(printed_items(items)) + seq![']'],
        Json::Object(members) => {
            let keys = sorted_keys(members);
            object_text(
                Seq::new(
                    keys.len(),
                    |i: int|
                        if members.dom().finite() && members.contains_key(keys[i]) {
                            (keys[i], printed(members[keys[i]]))
                        } else {
                            (keys[i], Seq::empty())
                        },
                ),
            )
        },
    }
}

/// The compact texts of values, one for each.
pub open spec fn printed_items(items: Seq<Json>) -> Seq<Seq<char>>
    decreases items,
{
    if items.len() == 0 {
        Seq::empty()
    } else {
        printed_items(items.take(items.len() - 1)).push(printed(items[items.len() - 1]))
    }
}

/// No members at all.
pub open spec fn nothing() -> Map<Seq<char>, Json> {
    Map::empty()
}

/// What an optional `serde_json` value holds.
pub open spec fn optional_json(value: Option<Value>) -> Option<Json> {
    match value {
        Some(v) => Some(json_of(v)),
        None => None,
    }
}

/// `serde_json::Value::default`: the null value.
#[verifier::external_body]
pub(crate) fn null_value() -> (value: Value)
    ensures
        json_of(value) == Json::Null,
{
    Value::default()
}

/// `<serde_json::Value as From<bool>>::from`: the boolean.
#[verifier::external_body]
pub(crate) fn bool_value(flag: bool) -> (value: Value)
    ensures
        json_of(value) == Json::Bool(flag),
{
    Value::from(flag)
}

/// `<serde_json::Value as From<u16>>::from`: the number, which prints in decimal.
#[verifier::external_body]
pub(crate) fn number_value(number: u16) -> (value: Value)
    ensures
        json_of(value) == Json::Number(decimal_text(number as nat)),
{
    Value::from(number)
}

/// `<serde_json::Value as From<String>>::from`: the text.
#[verifier::external_body]
pub(crate) fn text_value(text: String) -> (value: Value)
    ensures
        json_of(value) == Json::Text(text@),
{
    Value::from(text)
}

/// `<serde_json::Value as From<Vec<Value>>>::from`: the items in their order.
#[verifier::external_body]
pub(crate) fn array_value(items: Vec<Value>) -> (value: Value)
    ensures
        json_of(value) == Json::Array(items@.map_values(|item: Value| json_of(item))),
{
    Value::from(items)
}

/// `<serde_json::Value as From<Map<String, Value>>>::from`: the object with these members.
#[verifier::external_body]
pub(crate) fn object_value(members: serde_json::Map<String, Value>) -> (value: Value)
    ensures
        json_of(value) == Json::Object(members_of(members)),
{
    Value::from(members)
}

/// `serde_json::Map::new`: no members.
#[verifier::external_body]
pub(crate) fn no_members() -> (members: serde_json::Map<String, Value>)
    ensures
        members_of(members) == nothing(),
{
    serde_json::Map::new()
}

/// `serde_json::Map::insert`: the value stands under the key, in place of any other.
#[verifier::external_body]
pub(crate) fn insert_member(members: &mut serde_json::Map<String, Value>, key: &str, value: Value)
    ensures
        members_of(*final(members)) == members_of(*old(members)).insert(key@, json_of(value)),
{
    members.insert(key.to_string(), value);
}

/// `serde_json::Value::get` with a text: the member of an object under that key.
#[verifier::external_body]
pub(crate) fn member<'a>(value: &'a Value, key: &str) -> (found: Option<&'a Value>)
    ensures
        match found {
            Some(inner) => json_of(*value).get(key@) == Some(json_of(*inner)),
            None => json_of(*value).get(key@) is None,
        },
{
    value.get(key)
}

/// `serde_json::Value::is_null`.
#[verifier::external_body]
pub(crate) fn is_null(value: &Value) -> (yes: bool)
    ensures
        yes == (json_of(*value) is Null),
{
    value.is_null()
}

/// `serde_json::Value::as_bool`: the boolean that a value is, if it is one.
#[verifier::external_body]
pub(crate) fn as_bool(value: &Value) -> (flag: Option<bool>)
    ensures
        flag == (match json_of(*value) {
            Json::Bool(b) => Some(b),
            _ => None,
        }),
{
    value.as_bool()
}

/// `serde_json::Value::as_str`: the text that a value is, if it is one.
#[verifier::external_body]
pub(crate) fn as_text(value: &Value) -> (text: Option<&str>)
    ensures
        match text {
            Some(t) => json_of(*value) == Json::Text(t@),
            None => !(json_of(*value) is Text),
        },
{
    value.as_str()
}

/// `<serde_json::Value as Clone>::clone`: a value that holds the same.
#[verifier::external_body]
pub(crate) fn copy_value(value: &Value) -> (copy: Value)
    ensures
        json_of(copy) == json_of(*value),
{
    value.clone()
}

/// `<serde_json::Value as Display>::fmt`, by way of `to_string`.
///
/// Claims that the text depends on what the value holds alone and is the compact form: the
/// literals `null`, `true` and `false`, a number as it is modelled, a text in quotes, items
/// and members with nothing between them but a comma. The members stand in the order of
/// their keys because `serde_json`, built without its `preserve_order` feature, keeps them
/// in a sorted map. What is printed for a text with a quote, a backslash or a control
/// character in it is left to the name.
#[verifier::external_body]
pub(crate) fn value_text(value: &Value) -> (text: String)
    ensures
        text@ == json_text(json_of(*value)),
        text@ == printed(json_of(*value)),
{
    value.to_string()
}

/// `serde_json::from_slice` into a `serde_json::Value`. Claims that the outcome depends on
/// the bytes alone.
#[verifier::external_body]
pub(crate) fn read_value(bytes: &[u8]) -> (value: Option<Value>)
    ensures
        optional_json(value) == json_read(bytes@),
{
    serde_json::from_slice(bytes).ok()
}

// ---------------------------------------------------------------------------
// Bodies
// ---------------------------------------------------------------------------
/// A text as JSON, or `null`.
pub open spec fn optional_text(value: Option<Seq<char>>) -> Seq<char> {
    match value {
        Some(text) => string_text(text),
        None => "null"@,
    }
}

/// An object with a message.
pub open spec fn message_text(message: Seq<char>) -> Seq<char> {
    object_text(seq![("message"@, string_text(message))])
}

/// The fields of an object as texts.
pub open spec fn field_texts(fields: Seq<(&str, String)>) -> Seq<(Seq<char>, Seq<char>)> {
    Seq::new(fields.len(), |i: int| (fields[i].0@, fields[i].1@))
}

/// Writes a text as JSON.
pub fn json_string(text: &str) -> (json: String)
    ensures
        json@ == string_text(text@),
{
    value_text(&text_value(text.to_owned()))
}

/// Writes a text as JSON, or `null`.
pub fn option_json_string(text: Option<&str>) -> (json: String)
    ensures
        json@ == optional_text(match text {
            Some(t) => Some(t@),
            None => None,
        }),
{
    match text {
        Some(t) => json_string(t),
        None => "null".to_owned(),
    }
}

/// Writes a truth value as JSON.
pub fn json_flag(flag: bool) -> (json: String)
    ensures
        json@ == flag_text(flag),
{
    if flag {
        "true".to_owned()
    } else {
        "false".to_owned()
    }
}

/// Writes an object whose members stand in the given order.
pub fn object_json(fields: &Vec<(&str, String)>) -> (json: String)
    ensures
        json@ == object_text(field_texts(fields@)),
{
    proof {
        reveal_strlit("{");
        reveal_strlit("}");
        reveal_strlit(",");
        reveal_strlit(":");
    }
    let ghost all = member_texts(field_texts(fields@));
    let mut json = "{".to_owned();
    let mut i: usize = 0;
    assert(json@ =~= seq!['{'] + comma_separated(all.take(0)));
    while i < fields.len()
        invariant
            all == member_texts(field_texts(fields@)),
            0 <= i <= fields@.len(),
            json@ == seq!['{'] + comma_separated(all.take(i as int)),
            ","@ == seq![','],
            ":"@ == seq![':'],
        decreases fields@.len() - i,
    {
        if i > 0 {
            json.append(",");
        }
        json.append(json_string(fields[i].0).as_str());
        json.append(":");
        json.append(fields[i].1.as_str());
        proof {
            let prefix = all.take(i + 1);
            assert(prefix.drop_last() =~= all.take(i as int));
            assert(prefix.last() == string_text(fields@[i as int].0@) + seq![':']
                + fields@[i as int].1@);
            assert(json@ =~= seq!['{'] + comma_separated(prefix));
        }
        i += 1;
    }
    json.append("}");
    assert(all.take(all.len() as int) =~= all);
    json
}

/// Writes an object with a message.
pub fn error_payload(message: &str) -> (json: String)
    ensures
        json@ == message_text(message@),
{
    let fields = vec![("message", json_string(message))];
    assert(field_texts(fields@) =~= seq![("message"@, string_text(message@))]);
    object_json(&fields)
}

} // verus!
