//! A plain model of a JSON value, as the logic reads it.

use vstd::prelude::*;

verus! {

/// A JSON number: the `u64` it denotes, if any, and its text.
pub struct JsonNumber {
    pub as_u64: Option<u64>,
    pub text: String,
}

/// The shape of a JSON value. Object members keep the order in which the
/// parser lists them, each key once.
pub enum JsonValue {
    Null,
    Bool(bool),
    Number(JsonNumber),
    Str(String),
    Array(Vec<Json>),
    Object(Vec<(String, Json)>),
}

/// A JSON value together with its pretty-printed text.
pub struct Json {
    pub value: JsonValue,
    pub pretty: String,
}

} // verus!

verus! {

/// The value of the first member named `key` among `fields`.
pub open spec fn member(fields: Seq<(String, Json)>, key: Seq<char>) -> Option<Json>
    decreases fields.len(),
{
    if fields.len() == 0 {
        None
    } else if fields[0].0@ == key {
        Some(fields[0].1)
    } else {
        member(fields.drop_first(), key)
    }
}

/// serde_json `Value::get` with a string key: the member of an object.
pub open spec fn get(v: Json, key: Seq<char>) -> Option<Json> {
    match v.value {
        JsonValue::Object(fields) => member(fields@, key),
        _ => None,
    }
}

/// serde_json `Value::as_str`.
pub open spec fn as_str(v: Json) -> Option<Seq<char>> {
    match v.value {
        JsonValue::Str(s) => Some(s@),
        _ => None,
    }
}

/// The string member `key` of `v`, if it is one.
pub open spec fn get_str(v: Json, key: Seq<char>) -> Option<Seq<char>> {
    match get(v, key) {
        Some(m) => as_str(m),
        None => None,
    }
}

/// The elements of `v`, if it is an array.
pub open spec fn as_array(v: Json) -> Option<Seq<Json>> {
    match v.value {
        JsonValue::Array(a) => Some(a@),
        _ => None,
    }
}

/// The `u64` that `v` denotes, if it is such a number.
pub open spec fn as_u64(v: Json) -> Option<u64> {
    match v.value {
        JsonValue::Number(n) => n.as_u64,
        _ => None,
    }
}

pub open spec fn is_null(v: Json) -> bool {
    v.value is Null
}

/// The member `key` of `v`.
pub fn json_get<'a>(v: &'a Json, key: &str) -> (r: Option<&'a Json>)
    ensures
        match r {
            Some(m) => get(*v, key@) == Some(*m),
            None => get(*v, key@) is None,
        },
{
    match &v.value {
        JsonValue::Object(fields) => {
            let k = crate::text::chars_of(key);
            let mut i: usize = 0;
            assert(get(*v, key@) == member(fields@, key@));
            proof {
                assert(fields@.skip(0) =~= fields@);
            }
            while i < fields.len()
                invariant
                    i <= fields@.len(),
                    k@ == key@,
                    get(*v, key@) == member(fields@, key@),
                    member(fields@, key@) == member(fields@.skip(i as int), key@),
                decreases fields@.len() - i,
            {
                let ghost rest = fields@.skip(i as int);
                let name = crate::text::chars_of(fields[i].0.as_str());
                if crate::text::chars_eq(name.as_slice(), k.as_slice()) {
                    proof {
                        assert(rest[0] == fields@[i as int]);
                        assert(rest[0].0@ == key@);
                        assert(member(rest, key@) == Some(rest[0].1));
                        assert(get(*v, key@) == Some(fields@[i as int].1));
                    }
                    return Some(&fields[i].1);
                }
                proof {
                    assert(rest.drop_first() =~= fields@.skip(i as int + 1));
                }
                i = i + 1;
            }
            None
        },
        _ => None,
    }
}

/// The string member `key` of `v`.
pub fn json_get_str<'a>(v: &'a Json, key: &str) -> (r: Option<&'a String>)
    ensures
        match r {
            Some(s) => get_str(*v, key@) == Some(s@),
            None => get_str(*v, key@) is None,
        },
{
    match json_get(v, key) {
        Some(m) => match &m.value {
            JsonValue::Str(s) => Some(s),
            _ => None,
        },
        None => None,
    }
}

/// The `u64` member `key` of `v`.
pub fn json_get_u64(v: &Json, key: &str) -> (r: Option<u64>)
    ensures
        r == match get(*v, key@) {
            Some(m) => as_u64(m),
            None => None,
        },
{
    match json_get(v, key) {
        Some(m) => match &m.value {
            JsonValue::Number(n) => n.as_u64,
            _ => None,
        },
        None => None,
    }
}

/// A JSON `null`.
pub fn json_null() -> (r: Json)
    ensures
        r.value is Null,
        r.pretty@ == "null"@,
{
    Json { value: JsonValue::Null, pretty: "null".to_string() }
}

} // verus!


verus! {

/// `a` and `b` are the same JSON value with the same text.
pub open spec fn json_eqv(a: Json, b: Json) -> bool
    decreases a,
{
    a.pretty@ == b.pretty@ && match (a.value, b.value) {
        (JsonValue::Null, JsonValue::Null) => true,
        (JsonValue::Bool(x), JsonValue::Bool(y)) => x == y,
        (JsonValue::Number(x), JsonValue::Number(y)) => x.as_u64 == y.as_u64 && x.text@ == y.text@,
        (JsonValue::Str(x), JsonValue::Str(y)) => x@ == y@,
        (JsonValue::Array(x), JsonValue::Array(y)) => x@.len() == y@.len() && forall|i: int|
            0 <= i < x@.len() ==> json_eqv(#[trigger] x@[i], y@[i]),
        (JsonValue::Object(x), JsonValue::Object(y)) => x@.len() == y@.len() && forall|i: int|
            0 <= i < x@.len() ==> (#[trigger] x@[i]).0@ == y@[i].0@ && json_eqv(x@[i].1, y@[i].1),
        _ => false,
    }
}

impl Json {
    /// A deep copy.
    pub fn copy(&self) -> (r: Json)
        ensures
            json_eqv(*self, r),
        decreases self,
    {
        let value = match &self.value {
            JsonValue::Null => JsonValue::Null,
            JsonValue::Bool(b) => JsonValue::Bool(*b),
            JsonValue::Number(n) => JsonValue::Number(
                JsonNumber { as_u64: n.as_u64, text: n.text.clone() },
            ),
            JsonValue::Str(s) => JsonValue::Str(s.clone()),
            JsonValue::Array(a) => {
                let mut out: Vec<Json> = Vec::new();
                let mut i: usize = 0;
                while i < a.len()
                    invariant
                        i <= a@.len(),
                        self.value == JsonValue::Array(*a),
                        out@.len() == i,
                        forall|j: int| 0 <= j < i ==> json_eqv(#[trigger] a@[j], out@[j]),
                    decreases a@.len() - i,
                {
                    assert(decreases_to!(self => a@[i as int])) by {
                        assert(decreases_to!(self.value => self.value->Array_0));
                        assert(decreases_to!(*a => a@));
                        assert(decreases_to!(a@ => a@[i as int]));
                    }
                    out.push(a[i].copy());
                    i = i + 1;
                }
                JsonValue::Array(out)
            },
            JsonValue::Object(fields) => {
                let mut out: Vec<(String, Json)> = Vec::new();
                let mut i: usize = 0;
                while i < fields.len()
                    invariant
                        i <= fields@.len(),
                        self.value == JsonValue::Object(*fields),
                        out@.len() == i,
                        forall|j: int|
                            0 <= j < i ==> (#[trigger] fields@[j]).0@ == out@[j].0@ && json_eqv(
                                fields@[j].1,
                                out@[j].1,
                            ),
                    decreases fields@.len() - i,
                {
                    assert(decreases_to!(self => fields@[i as int].1)) by {
                        assert(decreases_to!(self.value => self.value->Object_0));
                        assert(decreases_to!(*fields => fields@));
                        assert(decreases_to!(fields@ => fields@[i as int]));
                        assert(decreases_to!(fields@[i as int] => fields@[i as int].1));
                    }
                    let k = fields[i].0.clone();
                    let v = fields[i].1.copy();
                    out.push((k, v));
                    i = i + 1;
                }
                JsonValue::Object(out)
            },
        };
        Json { value, pretty: self.pretty.clone() }
    }
}

} // verus!
