//! The answers of the wiki API as plain values: a JSON document, and the
//! lookups the rest of the library reads it with.
use vstd::prelude::*;

verus! {

/// A JSON number. Only integers are read by this library, so a
/// floating-point number is kept as a bare `Float`.
#[derive(Debug, Clone, Copy, PartialEq, Eq)]
pub enum JsonNumber {
    /// A non-negative integer.
    PosInt(u64),
    /// A negative integer.
    NegInt(i64),
    /// A number with a fraction or an exponent.
    Float,
}

/// A JSON document. An object keeps its members in the order they were read.
#[derive(Debug)]
pub enum Json {
    Null,
    Bool(bool),
    Number(JsonNumber),
    String(String),
    Array(Vec<Json>),
    Object(Vec<(String, Json)>),
}

/// `i` is the first member of `entries` named `key`.
pub open spec fn is_first_key(entries: Seq<(String, Json)>, key: Seq<char>, i: int) -> bool {
    &&& 0 <= i < entries.len()
    &&& entries[i].0@ == key
    &&& forall|j: int| 0 <= j < i ==> (#[trigger] entries[j]).0@ != key
}

/// The value of the first member of `entries` named `key`.
pub open spec fn entry_value(entries: Seq<(String, Json)>, key: Seq<char>) -> Option<Json> {
    if exists|i: int| #[trigger] is_first_key(entries, key, i) {
        Some(entries[choose|i: int| #[trigger] is_first_key(entries, key, i)].1)
    } else {
        None
    }
}

/// The member `key` of `v`: `None` when `v` is missing, is no object, or
/// has no such member.
pub open spec fn field(v: Option<Json>, key: Seq<char>) -> Option<Json> {
    match v {
        Some(Json::Object(entries)) => entry_value(entries@, key),
        _ => None,
    }
}

/// The elements of `v` when it is an array.
pub open spec fn array_of(v: Option<Json>) -> Option<Seq<Json>> {
    match v {
        Some(Json::Array(items)) => Some(items@),
        _ => None,
    }
}

/// The members of `v` when it is an object.
pub open spec fn object_of(v: Option<Json>) -> Option<Seq<(String, Json)>> {
    match v {
        Some(Json::Object(entries)) => Some(entries@),
        _ => None,
    }
}

/// The text of `v` when it is a string.
pub open spec fn str_of(v: Option<Json>) -> Option<Seq<char>> {
    match v {
        Some(Json::String(s)) => Some(s@),
        _ => None,
    }
}

/// The value of `v` when it is a non-negative integer.
pub open spec fn u64_of(v: Option<Json>) -> Option<u64> {
    match v {
        Some(Json::Number(JsonNumber::PosInt(n))) => Some(n),
        _ => None,
    }
}

/// The value of `v` when it is an integer that fits in an `i64`.
pub open spec fn i64_of(v: Option<Json>) -> Option<i64> {
    match v {
        Some(Json::Number(JsonNumber::PosInt(n))) => if n <= i64::MAX as u64 {
            Some(n as i64)
        } else {
            None
        },
        Some(Json::Number(JsonNumber::NegInt(n))) => Some(n),
        _ => None,
    }
}

proof fn lemma_first_key_unique(entries: Seq<(String, Json)>, key: Seq<char>, i: int, k: int)
    requires
        is_first_key(entries, key, i),
        is_first_key(entries, key, k),
    ensures
        i == k,
{
    if i < k {
        assert(entries[i].0@ != key);
    } else if k < i {
        assert(entries[k].0@ != key);
    }
}

impl Json {
    /// The member `key` of this value, when it is an object that has one.
    pub fn get(&self, key: &str) -> (res: Option<&Json>)
        ensures
            match field(Some(*self), key@) {
                Some(v) => res matches Some(r) && *r == v,
                None => res is None,
            },
    {
        match self {
            Json::Object(entries) => entry_of(entries, key),
            _ => None,
        }
    }

    /// The elements of this value, when it is an array.
    pub fn as_array(&self) -> (res: Option<&Vec<Json>>)
        ensures
            match array_of(Some(*self)) {
                Some(items) => res matches Some(r) && r@ == items,
                None => res is None,
            },
    {
        match self {
            Json::Array(items) => Some(items),
            _ => None,
        }
    }

    /// The members of this value, when it is an object.
    pub fn as_object(&self) -> (res: Option<&Vec<(String, Json)>>)
        ensures
            match object_of(Some(*self)) {
                Some(entries) => res matches Some(r) && r@ == entries,
                None => res is None,
            },
    {
        match self {
            Json::Object(entries) => Some(entries),
            _ => None,
        }
    }

    /// The text of this value, when it is a string.
    pub fn as_str(&self) -> (res: Option<&str>)
        ensures
            match str_of(Some(*self)) {
                Some(s) => res matches Some(r) && r@ == s,
                None => res is None,
            },
    {
        match self {
            Json::String(s) => Some(s.as_str()),
            _ => None,
        }
    }

    /// The value of this number, when it is a non-negative integer.
    pub fn as_u64(&self) -> (res: Option<u64>)
        ensures
            res == u64_of(Some(*self)),
    {
        match self {
            Json::Number(JsonNumber::PosInt(n)) => Some(*n),
            _ => None,
        }
    }

    /// The value of this number, when it is an integer that fits in an `i64`.
    pub fn as_i64(&self) -> (res: Option<i64>)
        ensures
            res == i64_of(Some(*self)),
    {
        match self {
            Json::Number(JsonNumber::PosInt(n)) => {
                if *n <= 9223372036854775807u64 {
                    Some(*n as i64)
                } else {
                    None
                }
            },
            Json::Number(JsonNumber::NegInt(n)) => Some(*n),
            _ => None,
        }
    }
}

/// The value of the first member of `entries` named `key`.
pub fn entry_of<'a>(entries: &'a Vec<(String, Json)>, key: &str) -> (res: Option<&'a Json>)
    ensures
        match entry_value(entries@, key@) {
            Some(v) => res matches Some(r) && *r == v,
            None => res is None,
        },
{
    let wanted = key.to_owned();
    let mut i: usize = 0;
    while i < entries.len()
        invariant
            wanted@ == key@,
            i <= entries@.len(),
            forall|j: int| 0 <= j < i ==> (#[trigger] entries@[j]).0@ != key@,
        decreases entries@.len() - i,
    {
        if entries[i].0 == wanted {
            assert(is_first_key(entries@, key@, i as int));
            proof {
                let k = choose|k: int| #[trigger] is_first_key(entries@, key@, k);
                lemma_first_key_unique(entries@, key@, i as int, k);
            }
            return Some(&entries[i].1);
        }
        i = i + 1;
    }
    assert(!exists|k: int| #[trigger] is_first_key(entries@, key@, k));
    None
}

/// The member `key` of `v`, where `v` may be missing.
pub fn field_of<'a>(v: Option<&'a Json>, key: &str) -> (res: Option<&'a Json>)
    ensures
        match field(opt_json(v), key@) {
            Some(x) => res matches Some(r) && *r == x,
            None => res is None,
        },
{
    match v {
        Some(j) => j.get(key),
        None => None,
    }
}

/// A borrowed optional value as an optional value.
pub open spec fn opt_json(v: Option<&Json>) -> Option<Json> {
    match v {
        Some(r) => Some(*r),
        None => None,
    }
}

} // verus!
