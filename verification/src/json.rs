//! JSON values as a plain tree, produced by a trusted parse through
//! serde_json; all navigation over the tree is verified.

use vstd::prelude::*;

verus! {

/// A parsed JSON value. Numbers keep only their textual form: the protocol
/// reads no numeric field.
pub enum JsonNode {
    Null,
    Bool(bool),
    Num(String),
    Str(String),
    Arr(Vec<JsonNode>),
    Obj(Vec<(String, JsonNode)>),
}

#[verifier::external_type_specification]
#[verifier::external_body]
pub struct ExValue(serde_json::Value);

/// Relies on serde_json::Value being a finite tree of the six JSON kinds:
/// maps each variant to the matching [`JsonNode`] variant, moving the
/// contents; object entries come out in serde_json's deterministic
/// (key-ordered) iteration order.
#[verifier::external_body]
fn value_to_node(v: serde_json::Value) -> JsonNode {
    match v {
        serde_json::Value::Null => JsonNode::Null,
        serde_json::Value::Bool(b) => JsonNode::Bool(b),
        serde_json::Value::Number(n) => JsonNode::Num(n.to_string()),
        serde_json::Value::String(s) => JsonNode::Str(s),
        serde_json::Value::Array(a) => JsonNode::Arr(
            a.into_iter().map(value_to_node).collect(),
        ),
        serde_json::Value::Object(m) => JsonNode::Obj(
            m.into_iter().map(|(k, w)| (k, value_to_node(w))).collect(),
        ),
    }
}

/// The JSON value a byte sequence parses to, or nothing when the bytes are
/// not UTF-8 or not well-formed JSON. Parsing is a function of the bytes
/// alone, so the result only carries a name.
pub uninterp spec fn json_of(b: Seq<u8>) -> Option<JsonNode>;

/// Relies on serde_json::from_str (through `serde_json::Value`): whether a
/// line parses, and what it parses to, depends on the bytes alone; invalid
/// UTF-8 and malformed JSON are rejected.
#[verifier::external_body]
pub fn parse_json(b: &[u8]) -> (r: Option<JsonNode>)
    ensures
        r == json_of(b@),
{
    match core::str::from_utf8(b) {
        Ok(s) => match serde_json::from_str::<serde_json::Value>(s) {
            Ok(v) => Some(value_to_node(v)),
            Err(_) => None,
        },
        Err(_) => None,
    }
}

/// Relies on str's `PartialEq`: two string slices are equal exactly when
/// their character sequences are.
#[verifier::external_body]
pub fn str_eq(a: &str, b: &str) -> (r: bool)
    ensures
        r == (a@ == b@),
{
    a == b
}

/// First binding of `key` among an object's fields, if any. A tree built by
/// the trusted parse has each key at most once.
pub open spec fn spec_obj_get(fields: Seq<(String, JsonNode)>, key: Seq<char>) -> Option<JsonNode>
    decreases fields.len(),
{
    if fields.len() == 0 {
        None
    } else if fields[0].0@ == key {
        Some(fields[0].1)
    } else {
        spec_obj_get(fields.drop_first(), key)
    }
}

/// Look a key up among an object's fields.
pub fn obj_get<'a>(fields: &'a Vec<(String, JsonNode)>, key: &str) -> (r: Option<&'a JsonNode>)
    ensures
        match r {
            Some(n) => spec_obj_get(fields@, key@) == Some(*n),
            None => spec_obj_get(fields@, key@) is None,
        },
{
    let n = fields.len();
    let mut i: usize = 0;
    proof {
        assert(fields@.skip(0) =~= fields@);
    }
    while i < n
        invariant
            n == fields@.len(),
            i <= n,
            spec_obj_get(fields@, key@) == spec_obj_get(fields@.skip(i as int), key@),
        decreases n - i,
    {
        if str_eq(fields[i].0.as_str(), key) {
            proof {
                assert(fields@.skip(i as int)[0] == fields@[i as int]);
            }
            return Some(&fields[i].1);
        }
        proof {
            assert(fields@.skip(i as int).drop_first() =~= fields@.skip(i as int + 1));
            assert(fields@.skip(i as int)[0] == fields@[i as int]);
        }
        i = i + 1;
    }
    proof {
        assert(fields@.skip(n as int) =~= Seq::<(String, JsonNode)>::empty());
    }
    None
}

} // verus!
