//! A JSON document model holding what the dashboard reads from the message
//! and part records: objects, strings and nested structure. Numbers carry no
//! payload because nothing here reads them.
use vstd::prelude::*;
use crate::text::{chars_of, chars_equal};

verus! {

/// A JSON value.
#[derive(Debug)]
pub enum JsonValue {
    Null,
    Bool(bool),
    Number,
    Str(String),
    Array(Vec<JsonValue>),
    Object(Vec<JsonMember>),
}

/// One `"key": value` member of a JSON object.
#[derive(Debug)]
pub struct JsonMember {
    pub key: String,
    pub value: JsonValue,
}

/// The value of the first member of `members` named `key`.
pub open spec fn lookup(members: Seq<JsonMember>, key: Seq<char>) -> Option<JsonValue>
    decreases members.len(),
{
    if members.len() == 0 {
        None
    } else if members[0].key@ == key {
        Some(members[0].value)
    } else {
        lookup(members.drop_first(), key)
    }
}

/// `v[key]` when `v` is an object that has such a member.
pub open spec fn json_get(v: JsonValue, key: Seq<char>) -> Option<JsonValue> {
    match v {
        JsonValue::Object(members) => lookup(members@, key),
        _ => None,
    }
}

/// The text of `v` when it is a JSON string.
pub open spec fn json_str(v: JsonValue) -> Option<Seq<char>> {
    match v {
        JsonValue::Str(s) => Some(s@),
        _ => None,
    }
}

/// `v[k]` as a string.
pub open spec fn field_str(v: JsonValue, k: Seq<char>) -> Option<Seq<char>> {
    match json_get(v, k) {
        Some(x) => json_str(x),
        None => None,
    }
}

/// `v[k1][k2]` as a string.
pub open spec fn field2_str(v: JsonValue, k1: Seq<char>, k2: Seq<char>) -> Option<Seq<char>> {
    match json_get(v, k1) {
        Some(x) => field_str(x, k2),
        None => None,
    }
}

/// `v[k1][k2][k3]` as a string.
pub open spec fn field3_str(v: JsonValue, k1: Seq<char>, k2: Seq<char>, k3: Seq<char>) -> Option<Seq<char>> {
    match json_get(v, k1) {
        Some(x) => field2_str(x, k2, k3),
        None => None,
    }
}

/// The view of an optional string slice.
pub open spec fn opt_view(o: Option<&str>) -> Option<Seq<char>> {
    match o {
        Some(s) => Some(s@),
        None => None,
    }
}

impl JsonValue {
    /// An empty JSON object.
    pub fn empty_object() -> (r: JsonValue)
        ensures
            r matches JsonValue::Object(m) && m@.len() == 0,
    {
        JsonValue::Object(Vec::new())
    }

    /// The member `key` of this value, when it is an object that has one.
    pub fn get<'a>(&'a self, key: &str) -> (r: Option<&'a JsonValue>)
        ensures
            match r {
                Some(x) => json_get(*self, key@) == Some(*x),
                None => json_get(*self, key@) is None,
            },
    {
        match self {
            JsonValue::Object(members) => {
                let k = chars_of(key);
                let mut i: usize = 0;
                assert(members@.skip(0) =~= members@);
                while i < members.len()
                    invariant
                        k@ == key@,
                        json_get(*self, key@) == lookup(members@, key@),
                        i <= members@.len(),
                        lookup(members@, key@) == lookup(members@.skip(i as int), key@),
                    decreases members@.len() - i,
                {
                    let name = chars_of(members[i].key.as_str());
                    assert(members@.skip(i as int).drop_first() =~= members@.skip(i + 1));
                    assert(members@.skip(i as int)[0] == members@[i as int]);
                    if chars_equal(name.as_slice(), k.as_slice()) {
                        assert(members@.skip(i as int)[0].key@ == key@);
                        assert(lookup(members@.skip(i as int), key@) == Some(members@[i as int].value));
                        return Some(&members[i].value);
                    }
                    i = i + 1;
                }
                None
            },
            _ => None,
        }
    }

    /// The text of this value, when it is a string.
    pub fn as_str<'a>(&'a self) -> (r: Option<&'a str>)
        ensures
            opt_view(r) == json_str(*self),
    {
        match self {
            JsonValue::Str(s) => Some(s.as_str()),
            _ => None,
        }
    }

    /// `self[k]` as a string.
    pub fn field_str<'a>(&'a self, k: &str) -> (r: Option<&'a str>)
        ensures
            opt_view(r) == field_str(*self, k@),
    {
        match self.get(k) {
            Some(x) => x.as_str(),
            None => None,
        }
    }

    /// `self[k1][k2]` as a string.
    pub fn field2_str<'a>(&'a self, k1: &str, k2: &str) -> (r: Option<&'a str>)
        ensures
            opt_view(r) == field2_str(*self, k1@, k2@),
    {
        match self.get(k1) {
            Some(x) => x.field_str(k2),
            None => None,
        }
    }

    /// `self[k1][k2][k3]` as a string.
    pub fn field3_str<'a>(&'a self, k1: &str, k2: &str, k3: &str) -> (r: Option<&'a str>)
        ensures
            opt_view(r) == field3_str(*self, k1@, k2@, k3@),
    {
        match self.get(k1) {
            Some(x) => x.field2_str(k2, k3),
            None => None,
        }
    }
}

} // verus!
