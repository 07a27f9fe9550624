//! What the library relies on `serde_json` for: the settings of a provider.
use vstd::prelude::*;

verus! {

/// A JSON value of `serde_json`.
#[verifier::external_type_specification]
#[verifier::external_body]
pub struct ExJson(serde_json::Value);

/// The model of a JSON value.
pub enum Json {
    Text(Seq<char>),
    Object(Map<Seq<char>, Json>),
    /// A number, a boolean, an array or null.
    Other,
}

impl Json {
    /// The member `name` of an object.
    pub open spec fn member(self, name: Seq<char>) -> Option<Json> {
        match self {
            Json::Object(members) => if members.contains_key(name) {
                Some(members[name])
            } else {
                None
            },
            _ => None,
        }
    }

    /// The string that the value is.
    pub open spec fn text(self) -> Option<Seq<char>> {
        match self {
            Json::Text(text) => Some(text),
            _ => None,
        }
    }

    /// The string under `name` of an object.
    pub open spec fn member_text(self, name: Seq<char>) -> Option<Seq<char>> {
        match self.member(name) {
            Some(value) => value.text(),
            None => None,
        }
    }
}

/// What a JSON value holds.
pub uninterp spec fn json_tree(value: serde_json::Value) -> Json;

/// `Value::get` by a name: the member of an object.
#[verifier::external_body]
pub(crate) fn json_get<'a>(value: &'a serde_json::Value, name: &str) -> (r: Option<
    &'a serde_json::Value,
>)
    ensures
        match r {
            Some(member) => json_tree(*value).member(name@) == Some(json_tree(*member)),
            None => json_tree(*value).member(name@) is None,
        },
{
    value.get(name)
}

/// `Value::as_str`.
pub assume_specification[ serde_json::Value::as_str ](value: &serde_json::Value) -> (r: Option<&str>)
    ensures
        match r {
            Some(text) => json_tree(*value).text() == Some(text@),
            None => json_tree(*value).text() is None,
        },
;

/// `Value::from` a string.
#[verifier::external_body]
pub(crate) fn json_text(text: String) -> (r: serde_json::Value)
    ensures
        json_tree(r) == Json::Text(text@),
{
    serde_json::Value::from(text)
}

/// `Value::from` a new `Map`: the object without members.
#[verifier::external_body]
pub(crate) fn json_object() -> (r: serde_json::Value)
    ensures
        json_tree(r) == Json::Object(Map::empty()),
{
    serde_json::Value::from(serde_json::Map::new())
}

/// `IndexMut` of a JSON value by a name: sets the member of an object. On a
/// value that is neither an object nor null it panics.
#[verifier::external_body]
pub(crate) fn json_put(object: &mut serde_json::Value, name: &str, value: serde_json::Value)
    requires
        json_tree(*old(object)) is Object,
    ensures
        json_tree(*final(object)) == Json::Object(
            json_tree(*old(object))->Object_0.insert(name@, json_tree(value)),
        ),
{
    object[name] = value;
}

} // verus!
