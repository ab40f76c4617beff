//! A JSON value as plain data: what `nft -j` prints, once parsed.

use vstd::prelude::*;

verus! {

/// A JSON number, as far as integers go: `as_u64` reads only `Unsigned`.
#[derive(Debug, PartialEq, Eq)]
pub enum JsonNumber {
    Unsigned(u64),
    Negative(i64),
    NonInteger,
}

/// A JSON value. Object members keep their order and (as parsed from
/// text) have distinct keys; lookup takes the first member with the key.
#[derive(Debug, PartialEq, Eq)]
pub enum Json {
    Null,
    Bool(bool),
    Number(JsonNumber),
    Str(String),
    Array(Vec<Json>),
    Object(Vec<(String, Json)>),
}

/// The value of the first member named `key`.
pub open spec fn members_get(m: Seq<(String, Json)>, key: Seq<char>) -> Option<Json>
    decreases m.len(),
{
    if m.len() == 0 {
        None
    } else if m[0].0@ == key {
        Some(m[0].1)
    } else {
        members_get(m.drop_first(), key)
    }
}

/// `value.get(key)`: the member `key` of an object, else nothing.
pub open spec fn json_get(v: Json, key: Seq<char>) -> Option<Json> {
    match v {
        Json::Object(m) => members_get(m@, key),
        _ => None,
    }
}

/// `value.as_array()`.
pub open spec fn json_as_array(v: Json) -> Option<Seq<Json>> {
    match v {
        Json::Array(a) => Some(a@),
        _ => None,
    }
}

/// `value.as_str()`.
pub open spec fn json_as_str(v: Json) -> Option<Seq<char>> {
    match v {
        Json::Str(s) => Some(s@),
        _ => None,
    }
}

/// `value.as_u64()`.
pub open spec fn json_as_u64(v: Json) -> Option<u64> {
    match v {
        Json::Number(JsonNumber::Unsigned(n)) => Some(n),
        _ => None,
    }
}

/// A JSON number that is an unsigned integer reads back whole, for every
/// `u64`; a number that is not one, or a value that is no number, reads as
/// nothing.
pub proof fn law_as_u64_reads_whole(n: u64, v: Json)
    ensures
        json_as_u64(Json::Number(JsonNumber::Unsigned(n))) == Some(n),
        !(v matches Json::Number(JsonNumber::Unsigned(_))) ==> json_as_u64(v) is None,
{
}

impl Json {
    /// The member `key` of an object.
    pub fn get(&self, key: &str) -> (r: Option<&Json>)
        ensures
            match r {
                Some(x) => json_get(*self, key@) == Some(*x),
                None => json_get(*self, key@) is None,
            },
    {
        match self {
            Json::Object(m) => {
                let k = String::from_str(key);
                let mut i: usize = 0;
                assert(m@.skip(0) =~= m@);
                while i < m.len()
                    invariant
                        i <= m@.len(),
                        k@ == key@,
                        json_get(*self, key@) == members_get(m@, key@),
                        members_get(m@, key@) == members_get(m@.skip(i as int), key@),
                    decreases m@.len() - i,
                {
                    assert(m@.skip(i as int)[0] == m@[i as int]);
                    if m[i].0 == k {
                        assert(m@.skip(i as int).len() > 0);
                        assert(members_get(m@.skip(i as int), key@) == Some(m@[i as int].1));
                        return Some(&m[i].1);
                    }
                    assert(m@.skip(i as int).drop_first() =~= m@.skip(i + 1));
                    i = i + 1;
                }
                None
            },
            _ => None,
        }
    }

    pub fn as_array(&self) -> (r: Option<&Vec<Json>>)
        ensures
            match r {
                Some(a) => json_as_array(*self) == Some(a@),
                None => json_as_array(*self) is None,
            },
    {
        match self {
            Json::Array(a) => Some(a),
            _ => None,
        }
    }

    pub fn as_str(&self) -> (r: Option<&String>)
        ensures
            match r {
                Some(s) => json_as_str(*self) == Some(s@),
                None => json_as_str(*self) is None,
            },
    {
        match self {
            Json::Str(s) => Some(s),
            _ => None,
        }
    }

    pub fn as_u64(&self) -> (r: Option<u64>)
        ensures
            r == json_as_u64(*self),
    {
        match self {
            Json::Number(JsonNumber::Unsigned(n)) => Some(*n),
            _ => None,
        }
    }
}

#[verifier::external_type_specification]
#[verifier::external_body]
pub struct ExSerdeJsonValue(serde_json::Value);

/// What `serde_json::from_slice` makes of some bytes: the value, one for
/// one as a `Json` (a number as `Unsigned` where it is a `u64`, else as
/// `Negative` where it is an `i64`, else `NonInteger`; object members in
/// the order serde_json keeps them), or the text of its error.
pub uninterp spec fn json_from_bytes(b: Seq<u8>) -> Result<Json, Seq<char>>;

/// The conversion step of `parse_json`: a parsed `serde_json::Value`,
/// variant for variant, as a `Json`. What it gives is stated as part of
/// `parse_json`'s result; it makes no promise of its own.
#[verifier::external_body]
fn json_of_value(v: serde_json::Value) -> Json {
    match v {
        serde_json::Value::Null => Json::Null,
        serde_json::Value::Bool(b) => Json::Bool(b),
        serde_json::Value::Number(n) => Json::Number(match (n.as_u64(), n.as_i64()) {
            (Some(u), _) => JsonNumber::Unsigned(u),
            (None, Some(i)) => JsonNumber::Negative(i),
            (None, None) => JsonNumber::NonInteger,
        }),
        serde_json::Value::String(s) => Json::Str(s),
        serde_json::Value::Array(a) => Json::Array(a.into_iter().map(json_of_value).collect()),
        serde_json::Value::Object(m) => Json::Object(m.into_iter().map(|(k, x)| (k, json_of_value(x))).collect()),
    }
}

/// Parses JSON text with `serde_json::from_slice` into a
/// `serde_json::Value` and hands it on as a `Json`. What it accepts and
/// what it reads are named, not stated: the result is a function of the
/// bytes alone; a failure carries serde_json's error text.
#[verifier::external_body]
pub fn parse_json(bytes: &[u8]) -> (r: Result<Json, String>)
    ensures
        match (r, json_from_bytes(bytes@)) {
            (Ok(a), Ok(b)) => a == b,
            (Err(e), Err(t)) => e@ == t,
            _ => false,
        },
{
    match serde_json::from_slice::<serde_json::Value>(bytes) {
        Ok(v) => Ok(json_of_value(v)),
        Err(e) => Err(e.to_string()),
    }
}

} // verus!
