//! JSON documents as the library reads them: serde_json parses, and the
//! library walks the parsed value with verified code.

use vstd::prelude::*;
use serde_json::Value;

verus! {

#[verifier::external_type_specification]
#[verifier::external_body]
pub struct ExValue(serde_json::Value);

/// A parsed JSON value.
pub enum JsonValue {
    Null,
    Bool(bool),
    /// A number, with its value when it is an integer that fits in a `u64`.
    Number(Option<u64>),
    Str(String),
    Array(Vec<JsonValue>),
    /// The members of an object, in serde_json's key order.
    Object(Vec<(String, JsonValue)>),
}

/// serde_json's reading of a text: the value it parses to, or the text of
/// its error.
pub uninterp spec fn json_of(text: Seq<char>) -> Result<JsonValue, Seq<char>>;

/// serde_json's value as the library's, variant by variant.
#[verifier::external_body]
fn json_value_from(v: &Value) -> JsonValue {
    match v {
        Value::Null => JsonValue::Null,
        Value::Bool(b) => JsonValue::Bool(*b),
        Value::Number(n) => JsonValue::Number(n.as_u64()),
        Value::String(s) => JsonValue::Str(s.clone()),
        Value::Array(a) => JsonValue::Array(a.iter().map(json_value_from).collect()),
        Value::Object(m) => JsonValue::Object(m.iter().map(|(k, x)| (k.clone(), json_value_from(x))).collect()),
    }
}

/// Parses `text` with `serde_json::from_str` into a `serde_json::Value` and
/// converts that value (`json_value_from`) or the error's text; the contract
/// names the reading.
#[verifier::external_body]
pub fn parse_json(text: &str) -> (r: Result<JsonValue, String>)
    ensures
        match r {
            Ok(v) => json_of(text@) == Ok::<JsonValue, Seq<char>>(v),
            Err(e) => json_of(text@) == Err::<JsonValue, Seq<char>>(e@),
        },
{
    match serde_json::from_str::<Value>(text) {
        Ok(v) => Ok(json_value_from(&v)),
        Err(e) => Err(e.to_string()),
    }
}

/// The value of the first member named `key` among `members`.
pub open spec fn first_member(members: Seq<(String, JsonValue)>, key: Seq<char>) -> Option<JsonValue>
    decreases members.len(),
{
    if members.len() == 0 {
        None
    } else if members[0].0@ == key {
        Some(members[0].1)
    } else {
        first_member(members.drop_first(), key)
    }
}

/// The member `key` of `v`, when `v` is an object that has one.
pub open spec fn member(v: JsonValue, key: Seq<char>) -> Option<JsonValue> {
    match v {
        JsonValue::Object(members) => first_member(members@, key),
        _ => None,
    }
}

/// The text of a value that is a string.
pub open spec fn string_text(v: Option<JsonValue>) -> Option<Seq<char>> {
    match v {
        Some(JsonValue::Str(s)) => Some(s@),
        _ => None,
    }
}

/// The member `key` of `v`, looked up as [`member`] says.
pub fn get_member<'a>(v: &'a JsonValue, key: &str) -> (r: Option<&'a JsonValue>)
    ensures
        match r {
            Some(x) => member(*v, key@) == Some(*x),
            None => member(*v, key@) is None,
        },
{
    match v {
        JsonValue::Object(members) => {
            assert(*v == JsonValue::Object(*members));
            let mut i: usize = 0;
            assert(members@.skip(0) =~= members@);
            while i < members.len()
                invariant
                    *v == JsonValue::Object(*members),
                    i <= members@.len(),
                    first_member(members@, key@) == first_member(members@.skip(i as int), key@),
                decreases members@.len() - i,
            {
                assert(members@.skip(i as int)[0] == members@[i as int]);
                if crate::text::same_text(&members[i].0, key) {
                    assert(first_member(members@.skip(i as int), key@) == Some(members@[i as int].1));
                    return Some(&members[i].1);
                }
                assert(members@.skip(i as int).drop_first() =~= members@.skip(i + 1));
                i = i + 1;
            }
            None
        },
        _ => None,
    }
}

/// The text of a value that is a string.
pub fn get_string(v: Option<&JsonValue>) -> (r: Option<String>)
    ensures
        crate::text::text_of(r) == string_text(match v {
            Some(x) => Some(*x),
            None => None,
        }),
{
    match v {
        Some(JsonValue::Str(s)) => Some(s.clone()),
        _ => None,
    }
}

/// The member `key` of an object is the value of its first member with
/// that key.
pub proof fn lemma_member_is_first_match(members: Vec<(String, JsonValue)>, key: Seq<char>, j: int)
    requires
        0 <= j < members@.len(),
        members@[j].0@ == key,
        forall|k: int| 0 <= k < j ==> members@[k].0@ != key,
    ensures
        member(JsonValue::Object(members), key) == Some(members@[j].1),
{
    lemma_first_member_at(members@, key, j);
}

proof fn lemma_first_member_at(ms: Seq<(String, JsonValue)>, key: Seq<char>, j: int)
    requires
        0 <= j < ms.len(),
        ms[j].0@ == key,
        forall|k: int| 0 <= k < j ==> ms[k].0@ != key,
    ensures
        first_member(ms, key) == Some(ms[j].1),
    decreases j,
{
    if j > 0 {
        assert(ms[0].0@ != key);
        lemma_first_member_at(ms.drop_first(), key, j - 1);
    }
}

proof fn lemma_first_member_absent(ms: Seq<(String, JsonValue)>, key: Seq<char>)
    requires
        forall|k: int| 0 <= k < ms.len() ==> ms[k].0@ != key,
    ensures
        first_member(ms, key) is None,
    decreases ms.len(),
{
    if ms.len() > 0 {
        assert(ms[0].0@ != key);
        lemma_first_member_absent(ms.drop_first(), key);
    }
}

/// An object without a member `key` has no such member, and a value that
/// is not an object has no members at all.
pub proof fn lemma_member_absent(v: JsonValue, key: Seq<char>)
    requires
        v matches JsonValue::Object(members) ==> forall|k: int|
            0 <= k < members@.len() ==> members@[k].0@ != key,
    ensures
        member(v, key) is None,
{
    match v {
        JsonValue::Object(members) => lemma_first_member_absent(members@, key),
        _ => {},
    }
}

} // verus!
