//! JSON objects whose members are texts or null, which is what merge patches
//! of labels and annotations are made of.

use crate::text;
use vstd::prelude::*;

verus! {

/// A JSON object.
#[verifier::external_type_specification]
#[verifier::external_body]
#[verifier::reject_recursive_types(K)]
#[verifier::reject_recursive_types(V)]
pub struct ExJsonMap<K, V>(serde_json::Map<K, V>);

/// A JSON value.
#[verifier::external_type_specification]
#[verifier::external_body]
pub struct ExJsonValue(serde_json::Value);

/// The members of a JSON object whose values are texts or null; a null is
/// `None`.
pub uninterp spec fn json_members(m: serde_json::Map<String, serde_json::Value>) -> Map<
    Seq<char>,
    Option<Seq<char>>,
>;

/// No members.
pub open spec fn no_members() -> Map<Seq<char>, Option<Seq<char>>> {
    Map::empty()
}

/// `serde_json::Map::new` makes an object without members.
#[verifier::external_body]
pub(crate) fn new_object() -> (r: serde_json::Map<String, serde_json::Value>)
    ensures
        json_members(r) == no_members(),
{
    serde_json::Map::new()
}

/// `serde_json::Map::insert` sets one member, in place of what the key had,
/// and changes no other. The value is a text, or null where there is none.
#[verifier::external_body]
pub(crate) fn set_member(m: &mut serde_json::Map<String, serde_json::Value>, key: String, value: Option<String>)
    ensures
        json_members(*final(m)) == json_members(*old(m)).insert(key@, text::opt_text(value)),
{
    m.insert(key, serde_json::Value::from(value));
}

} // verus!
