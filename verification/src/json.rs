//! A plain model of a parsed JSON document.
//!
//! The outside parser does the parsing; the rest of the library reads the
//! result through this enum, so every rule that looks inside a document is
//! verified. A number is carried as its decimal text, an object as its
//! entries in the order the parser's map iterates them.

use vstd::prelude::*;

verus! {

/// One JSON value.
pub enum Json {
    Null,
    Bool(bool),
    /// The number's decimal text, as the parser prints it back.
    Num(String),
    Str(String),
    Arr(Vec<Json>),
    Obj(Vec<(String, Json)>),
}

#[verifier::external_type_specification]
#[verifier::external_body]
pub struct ExValue(serde_json::Value);

/// Relies on the shape of `serde_json::Value`: each variant is carried over
/// one for one, a number through its decimal text (`Display` on
/// `serde_json::Number`), an object through its entries in the order the
/// backing map iterates them (sorted by key).
#[verifier::external_body]
fn value_to_json(v: serde_json::Value) -> Json {
    match v {
        serde_json::Value::Null => Json::Null,
        serde_json::Value::Bool(b) => Json::Bool(b),
        serde_json::Value::Number(n) => Json::Num(n.to_string()),
        serde_json::Value::String(s) => Json::Str(s),
        serde_json::Value::Array(a) => Json::Arr(a.into_iter().map(value_to_json).collect()),
        serde_json::Value::Object(m) => Json::Obj(
            m.into_iter().map(|(k, x)| (k, value_to_json(x))).collect(),
        ),
    }
}

/// The document the parser reads out of the given bytes, or nothing when
/// they are not one valid JSON document.
pub uninterp spec fn json_doc(bytes: Seq<u8>) -> Option<Json>;

/// Relies on `serde_json::from_slice` parsing one JSON document: whether it
/// succeeds and what it yields is a function of the input bytes alone, and
/// the conversion above keeps every part of the value.
#[verifier::external_body]
pub fn parse_json(b: &[u8]) -> (r: Option<Json>)
    ensures
        r == json_doc(b@),
{
    match serde_json::from_slice::<serde_json::Value>(b) {
        Ok(v) => Some(value_to_json(v)),
        Err(_) => None,
    }
}

/// The character view of a string value.
pub open spec fn str_of(j: Json) -> Option<Seq<char>> {
    match j {
        Json::Str(s) => Some(s@),
        _ => None,
    }
}

/// The decimal text of a number value.
pub open spec fn num_of(j: Json) -> Option<Seq<char>> {
    match j {
        Json::Num(s) => Some(s@),
        _ => None,
    }
}

/// The elements of an array value.
pub open spec fn arr_of(j: Json) -> Option<Seq<Json>> {
    match j {
        Json::Arr(v) => Some(v@),
        _ => None,
    }
}

/// The entries of an object value.
pub open spec fn obj_of(j: Json) -> Option<Seq<(String, Json)>> {
    match j {
        Json::Obj(v) => Some(v@),
        _ => None,
    }
}

/// The first entry of `fields` whose key reads `key`.
pub open spec fn lookup(fields: Seq<(String, Json)>, key: Seq<char>) -> Option<Json>
    decreases fields.len(),
{
    if fields.len() == 0 {
        None
    } else if fields[0].0@ == key {
        Some(fields[0].1)
    } else {
        lookup(fields.drop_first(), key)
    }
}

/// The member `key` of an object value; nothing on any other value.
pub open spec fn get_spec(j: Json, key: Seq<char>) -> Option<Json> {
    match j {
        Json::Obj(fields) => lookup(fields@, key),
        _ => None,
    }
}

proof fn lemma_lookup_skip(fields: Seq<(String, Json)>, key: Seq<char>, i: int)
    requires
        0 <= i <= fields.len(),
        forall|j: int| 0 <= j < i ==> #[trigger] fields[j].0@ != key,
    ensures
        lookup(fields, key) == lookup(fields.skip(i), key),
    decreases i,
{
    if i == 0 {
        assert(fields.skip(0) =~= fields);
    } else {
        assert(fields[0].0@ != key);
        lemma_lookup_skip(fields.drop_first(), key, i - 1);
        assert(fields.drop_first().skip(i - 1) =~= fields.skip(i));
    }
}

/// Look up the member `key` of an object value.
pub fn get<'a>(j: &'a Json, key: &str) -> (r: Option<&'a Json>)
    ensures
        match r {
            Some(v) => get_spec(*j, key@) == Some(*v),
            None => get_spec(*j, key@) is None,
        },
{
    match j {
        Json::Obj(fields) => {
            let n = fields.len();
            let mut i: usize = 0;
            while i < n
                invariant
                    *j == Json::Obj(*fields),
                    n == fields@.len(),
                    i <= n,
                    forall|k: int| 0 <= k < i ==> #[trigger] fields@[k].0@ != key@,
                decreases n - i,
            {
                let entry = &fields[i];
                if crate::text::str_eq(entry.0.as_str(), key) {
                    proof {
                        lemma_lookup_skip(fields@, key@, i as int);
                        let rest = fields@.skip(i as int);
                        assert(rest.len() > 0);
                        assert(rest[0] == fields@[i as int]);
                        assert(lookup(rest, key@) == Some(rest[0].1));
                        assert(*j == Json::Obj(*fields));
                        assert(get_spec(*j, key@) == lookup(fields@, key@));
                    }
                    return Some(&entry.1);
                }
                i = i + 1;
            }
            proof {
                lemma_lookup_skip(fields@, key@, n as int);
            }
            None
        },
        _ => None,
    }
}

/// The element `i` of an array value; nothing on any other value.
pub open spec fn idx_spec(j: Json, i: int) -> Option<Json> {
    match j {
        Json::Arr(v) => if 0 <= i < v@.len() {
            Some(v@[i])
        } else {
            None
        },
        _ => None,
    }
}

/// Index into an array value.
pub fn idx<'a>(j: &'a Json, i: usize) -> (r: Option<&'a Json>)
    ensures
        match r {
            Some(v) => idx_spec(*j, i as int) == Some(*v),
            None => idx_spec(*j, i as int) is None,
        },
{
    match j {
        Json::Arr(v) => {
            if i < v.len() {
                Some(&v[i])
            } else {
                None
            }
        },
        _ => None,
    }
}

/// Borrow the text of a string value.
pub fn as_str<'a>(j: &'a Json) -> (r: Option<&'a String>)
    ensures
        match r {
            Some(s) => str_of(*j) == Some(s@),
            None => str_of(*j) is None,
        },
{
    match j {
        Json::Str(s) => Some(s),
        _ => None,
    }
}

/// Borrow the decimal text of a number value.
pub fn as_num<'a>(j: &'a Json) -> (r: Option<&'a String>)
    ensures
        match r {
            Some(s) => num_of(*j) == Some(s@),
            None => num_of(*j) is None,
        },
{
    match j {
        Json::Num(s) => Some(s),
        _ => None,
    }
}

/// The member `key` of `j`, when it is a string: its text.
pub open spec fn get_str_spec(j: Json, key: Seq<char>) -> Option<Seq<char>> {
    match get_spec(j, key) {
        Some(v) => str_of(v),
        None => None,
    }
}

/// Whether the value is an object.
pub fn is_obj(j: &Json) -> (r: bool)
    ensures
        r == (*j is Obj),
{
    match j {
        Json::Obj(_) => true,
        _ => false,
    }
}

/// Borrow the elements of an array value.
pub fn as_arr<'a>(j: &'a Json) -> (r: Option<&'a Vec<Json>>)
    ensures
        match r {
            Some(v) => arr_of(*j) == Some(v@),
            None => arr_of(*j) is None,
        },
{
    match j {
        Json::Arr(v) => Some(v),
        _ => None,
    }
}

/// Borrow the entries of an object value.
pub fn as_obj<'a>(j: &'a Json) -> (r: Option<&'a Vec<(String, Json)>>)
    ensures
        match r {
            Some(v) => obj_of(*j) == Some(v@),
            None => obj_of(*j) is None,
        },
{
    match j {
        Json::Obj(v) => Some(v),
        _ => None,
    }
}

/// The member `k2` of the member `k1`.
pub open spec fn get2_spec(j: Json, k1: Seq<char>, k2: Seq<char>) -> Option<Json> {
    match get_spec(j, k1) {
        Some(v) => get_spec(v, k2),
        None => None,
    }
}

/// Look up a member of a member.
pub fn get2<'a>(j: &'a Json, k1: &str, k2: &str) -> (r: Option<&'a Json>)
    ensures
        match r {
            Some(v) => get2_spec(*j, k1@, k2@) == Some(*v),
            None => get2_spec(*j, k1@, k2@) is None,
        },
{
    match get(j, k1) {
        Some(v) => get(v, k2),
        None => None,
    }
}

/// The text of a string value, when it is non-empty; the reading the
/// adapters give a field that must be present and say something.
pub open spec fn nonempty_str_of(o: Option<Json>) -> Option<Seq<char>> {
    match o {
        Some(j) => match str_of(j) {
            Some(s) => if s.len() > 0 {
                Some(s)
            } else {
                None
            },
            None => None,
        },
        None => None,
    }
}

/// Borrow the text of an optional string value when it is non-empty.
pub fn as_nonempty_str<'a>(o: Option<&'a Json>) -> (r: Option<&'a String>)
    ensures
        match r {
            Some(s) => nonempty_str_of(
                match o {
                    Some(j) => Some(*j),
                    None => None,
                },
            ) == Some(s@),
            None => nonempty_str_of(
                match o {
                    Some(j) => Some(*j),
                    None => None,
                },
            ) is None,
        },
{
    match o {
        Some(j) => match as_str(j) {
            Some(s) => {
                if s.as_str().is_empty() {
                    None
                } else {
                    Some(s)
                }
            },
            None => None,
        },
        None => None,
    }
}

/// Look up a string member.
pub fn get_str<'a>(j: &'a Json, key: &str) -> (r: Option<&'a String>)
    ensures
        match r {
            Some(s) => get_str_spec(*j, key@) == Some(s@),
            None => get_str_spec(*j, key@) is None,
        },
{
    match get(j, key) {
        Some(v) => as_str(v),
        None => None,
    }
}

} // verus!
