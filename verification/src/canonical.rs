//! The byte form of a value that gets signed.

use crate::json::{
    distinct_keys, lemma_members_order_free, members_among, members_model, Json, JsonModel, Member,
};
use vstd::prelude::*;

verus! {

/// `serde_json::Value`, carried as an opaque value on its way to the serializer.
#[verifier::external_type_specification]
#[verifier::external_body]
pub struct ExValue(serde_json::Value);

/// The compact JSON text of a value as `serde_json::to_vec` writes it, in UTF-8:
/// no insignificant whitespace, and the members of every object in the
/// lexicographic order of their keys, because `serde_json` keeps an object in
/// an ordered map. It depends on the value alone, not on the order in which the
/// members of an object were written. A decimal is written as its text, read
/// as a JSON number; where the text is no number, `null` is written.
pub uninterp spec fn canonical_form(value: JsonModel) -> Seq<u8>;

/// Rebuilds a value as a `serde_json::Value`, variant by variant. The members
/// of an object go into a `serde_json::Map` one by one, in the order of the
/// list, through `Map::insert`, which gives a key that is already there its
/// new value: the last occurrence of a key is the one that stays. The text of
/// a decimal goes through `serde_json::Number`'s parser, and a text that is no
/// number becomes `null`. Nothing is claimed of the result here.
#[verifier::external_body]
fn to_value(value: &Json) -> serde_json::Value {
    match value {
        Json::Null => serde_json::Value::Null,
        Json::Bool(b) => serde_json::Value::Bool(*b),
        Json::Number(n) => serde_json::Value::from(*n),
        Json::Decimal(t) => t.parse().map_or(serde_json::Value::Null, serde_json::Value::Number),
        Json::Text(t) => serde_json::Value::String(t.clone()),
        Json::Array(items) => serde_json::Value::Array(items.iter().map(to_value).collect()),
        Json::Object(ms) => {
            let mut map = serde_json::Map::new();
            for m in ms {
                map.insert(m.key.clone(), to_value(&m.value));
            }
            serde_json::Value::Object(map)
        },
    }
}

/// Calls `serde_json::to_vec` on the value. The contract claims that the bytes
/// written are a function of the value's model; writing a `serde_json::Value`
/// into a byte vector has no failing case.
#[verifier::external_body]
fn serialize(value: &Json) -> (bytes: Vec<u8>)
    ensures
        bytes@ == canonical_form(value@),
{
    serde_json::to_vec(&to_value(value)).unwrap_or_default()
}

/// The canonical bytes of a value: the input of signing and of verification.
pub fn canonicalize(value: &Json) -> (bytes: Vec<u8>)
    ensures
        bytes@ == canonical_form(value@),
{
    serialize(value)
}

/// Canonicalization does not depend on the order in which an object was
/// written: two objects without repeated keys that hold the same members have
/// the same canonical bytes.
pub proof fn lemma_canonical_form_order_free(first: Seq<Member>, second: Seq<Member>)
    requires
        distinct_keys(first),
        distinct_keys(second),
        members_among(first, second),
        members_among(second, first),
    ensures
        canonical_form(JsonModel::Object(members_model(first))) == canonical_form(
            JsonModel::Object(members_model(second)),
        ),
{
    lemma_members_order_free(first, second);
}

/// Canonicalization does not depend on the order of construction: binding two
/// different keys in either order gives the same bytes.
pub proof fn lemma_canonical_form_ignores_order(
    base: JsonModel,
    first_key: Seq<char>,
    first: JsonModel,
    second_key: Seq<char>,
    second: JsonModel,
)
    requires
        first_key != second_key,
    ensures
        canonical_form(base.with(first_key, first).with(second_key, second)) == canonical_form(
            base.with(second_key, second).with(first_key, first),
        ),
{
    if let JsonModel::Object(m) = base {
        assert(m.insert(first_key, first).insert(second_key, second) =~= m.insert(
            second_key,
            second,
        ).insert(first_key, first));
    }
}

} // verus!
