//! Reading JSON values, from the `serde_json` crate.
use serde_json::Value;
use vstd::prelude::*;

verus! {

/// A JSON value of the `serde_json` crate.
#[verifier::external_type_specification]
#[verifier::external_body]
pub struct ExValue(Value);

/// What `serde_json::from_str` makes of a text: its value, or why there is none.
pub uninterp spec fn parsed_json(text: Seq<char>) -> Result<Value, Seq<char>>;

/// The text that a value is written as.
pub uninterp spec fn written_json(value: Value) -> Seq<char>;

/// The member of an object under a key, if the value is an object and has one.
pub uninterp spec fn json_member(value: Value, key: Seq<char>) -> Option<Value>;

/// The text of a string, if the value is one.
pub uninterp spec fn json_text(value: Value) -> Option<Seq<char>>;

/// A whole number that is not negative, if the value is one that fits in 64 bits.
pub uninterp spec fn json_number(value: Value) -> Option<u64>;

/// The truth value of a flag, if the value is one.
pub uninterp spec fn json_flag(value: Value) -> Option<bool>;

/// The items of an array, if the value is one.
pub uninterp spec fn json_items(value: Value) -> Option<Seq<Value>>;

/// Whether a value is `null`.
pub uninterp spec fn json_is_null(value: Value) -> bool;

/// `serde_json::from_str` reads a value from its text, or says why the text is no JSON.
#[verifier::external_body]
pub(crate) fn parse_json(text: &str) -> (result: Result<Value, String>)
    ensures
        match result {
            Ok(value) => parsed_json(text@) == Ok::<Value, Seq<char>>(value),
            Err(reason) => parsed_json(text@) == Err::<Value, Seq<char>>(reason@),
        },
{
    serde_json::from_str(text).map_err(|error| error.to_string())
}

/// `Value::to_string` writes a value as JSON without white space. Every object is written with
/// each of its keys once.
#[verifier::external_body]
pub(crate) fn write_json(value: &Value) -> (text: String)
    ensures
        text@ == written_json(*value),
{
    value.to_string()
}

/// `Value::get` looks a key up in an object; other values have no members.
#[verifier::external_body]
pub(crate) fn member_of<'v>(value: &'v Value, key: &str) -> (member: Option<&'v Value>)
    ensures
        match member {
            Some(member) => json_member(*value, key@) == Some(*member),
            None => json_member(*value, key@) is None,
        },
{
    value.get(key)
}

/// `Value::as_str` gives the text of a string.
#[verifier::external_body]
pub(crate) fn text_of(value: &Value) -> (text: Option<&str>)
    ensures
        match text {
            Some(text) => json_text(*value) == Some(text@),
            None => json_text(*value) is None,
        },
{
    value.as_str()
}

/// `Value::as_u64` gives a number that is an integer from 0 to the largest of 64 bits.
#[verifier::external_body]
pub(crate) fn number_of(value: &Value) -> (number: Option<u64>)
    ensures
        number == json_number(*value),
{
    value.as_u64()
}

/// `Value::as_bool` gives a truth value.
#[verifier::external_body]
pub(crate) fn flag_of(value: &Value) -> (flag: Option<bool>)
    ensures
        flag == json_flag(*value),
{
    value.as_bool()
}

/// `Value::as_array` gives the items of an array.
#[verifier::external_body]
pub(crate) fn items_of(value: &Value) -> (items: Option<&Vec<Value>>)
    ensures
        match items {
            Some(items) => json_items(*value) == Some(items@),
            None => json_items(*value) is None,
        },
{
    value.as_array()
}

/// `Value::is_null` tells whether a value is `null`.
#[verifier::external_body]
pub(crate) fn is_null(value: &Value) -> (result: bool)
    ensures
        result == json_is_null(*value),
{
    value.is_null()
}

/// The member of an object under a key, unless it is `null`.
pub open spec fn setting(value: Value, key: Seq<char>) -> Option<Value> {
    match json_member(value, key) {
        Some(member) => if json_is_null(member) {
            None
        } else {
            Some(member)
        },
        None => None,
    }
}

/// The text under the key `type`.
pub open spec fn kind(value: Value) -> Option<Seq<char>> {
    match json_member(value, "type"@) {
        Some(member) => json_text(member),
        None => None,
    }
}

/// Whether an object has `true` under a key.
pub open spec fn is_set(value: Value, key: Seq<char>) -> bool {
    match json_member(value, key) {
        Some(member) => json_flag(member) == Some(true),
        None => false,
    }
}

/// Tells whether an object has `true` under a key.
pub(crate) fn is_set_in(value: &Value, key: &str) -> (result: bool)
    ensures
        result == is_set(*value, key@),
{
    match member_of(value, key) {
        Some(member) => match flag_of(member) {
            Some(flag) => flag,
            None => false,
        },
        None => false,
    }
}

/// Finds the member of an object under a key, unless it is `null`.
pub(crate) fn setting_of<'v>(value: &'v Value, key: &str) -> (found: Option<&'v Value>)
    ensures
        match found {
            Some(found) => setting(*value, key@) == Some(*found),
            None => setting(*value, key@) is None,
        },
{
    match member_of(value, key) {
        Some(member) => if is_null(member) {
            None
        } else {
            Some(member)
        },
        None => None,
    }
}

/// Finds the text under the key `type`.
pub(crate) fn kind_of(value: &Value) -> (found: Option<&str>)
    ensures
        match found {
            Some(found) => kind(*value) == Some(found@),
            None => kind(*value) is None,
        },
{
    match member_of(value, "type") {
        Some(member) => text_of(member),
        None => None,
    }
}

/// A setting is a member that is not `null`; a kind is the text under `type`; a flag is set where it
/// is `true`.
pub proof fn settings_are_members(value: Value, key: Seq<char>, member: Value)
    requires
        json_member(value, key) == Some(member),
    ensures
        setting(value, key) == if json_is_null(member) {
            None
        } else {
            Some(member)
        },
        key == "type"@ ==> kind(value) == json_text(member),
        is_set(value, key) <==> json_flag(member) == Some(true),
{
}

/// What is not there is not set.
pub proof fn what_is_missing_is_not_set(value: Value, key: Seq<char>)
    requires
        json_member(value, key) is None,
    ensures
        setting(value, key) is None,
        key == "type"@ ==> kind(value) is None,
        !is_set(value, key),
{
}

} // verus!
