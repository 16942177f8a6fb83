//! The part of a JSON document that rock files are read through.
use vstd::prelude::*;
use crate::keyed::{find_key, keyed_value};

verus! {

/// A JSON number, as far as rock files read it: only a non-negative
/// integer is ever read as a number.
#[derive(Debug)]
pub enum JsonNumber {
    /// An integer in `0..=u64::MAX`.
    PosInt(u64),
    /// A negative integer.
    NegInt(i64),
    /// A number with a fraction or an exponent; its value is never read.
    Float,
}

/// A JSON value.  An object keeps its members in order; a key that occurs
/// twice is looked up at its first occurrence.
#[derive(Debug)]
pub enum JsonValue {
    Null,
    Bool(bool),
    Number(JsonNumber),
    Str(String),
    Array(Vec<JsonValue>),
    Object(Vec<(String, JsonValue)>),
}

impl JsonValue {
    /// `self[key]`: the member named `key` of an object; `None` for any
    /// other value or a missing member (what JSON indexing reads as `null`).
    pub open spec fn spec_field(self, key: Seq<char>) -> Option<JsonValue> {
        match self {
            JsonValue::Object(members) => keyed_value(members@, key),
            _ => None,
        }
    }
}

/// The views of a sequence of strings.
pub open spec fn views(v: Seq<String>) -> Seq<Seq<char>> {
    v.map_values(|s: String| s@)
}

/// The strings among the items of an array, in order (other items are skipped).
pub open spec fn array_strings(items: Seq<JsonValue>) -> Seq<Seq<char>>
    decreases items.len(),
{
    if items.len() == 0 {
        Seq::empty()
    } else {
        let rest = array_strings(items.drop_last());
        match items.last() {
            JsonValue::Str(s) => rest.push(s@),
            _ => rest,
        }
    }
}

impl JsonValue {
    pub open spec fn spec_as_str(self) -> Option<Seq<char>> {
        match self {
            JsonValue::Str(s) => Some(s@),
            _ => None,
        }
    }

    pub open spec fn spec_as_bool(self) -> Option<bool> {
        match self {
            JsonValue::Bool(b) => Some(b),
            _ => None,
        }
    }

    pub open spec fn spec_as_u64(self) -> Option<u64> {
        match self {
            JsonValue::Number(JsonNumber::PosInt(n)) => Some(n),
            _ => None,
        }
    }

    /// What a rock file's list setting holds: a single string, or the
    /// strings of an array; nothing for any other value.
    pub open spec fn spec_strings(self) -> Seq<Seq<char>> {
        match self {
            JsonValue::Str(s) => seq![s@],
            JsonValue::Array(items) => array_strings(items@),
            _ => Seq::empty(),
        }
    }

    /// The member named `key` of an object.
    pub fn field(&self, key: &str) -> (r: Option<&JsonValue>)
        ensures
            match r {
                Some(v) => self.spec_field(key@) == Some(*v),
                None => self.spec_field(key@) is None,
            },
    {
        match self {
            JsonValue::Object(members) => match find_key(members, key) {
                Some(i) => Some(&members[i].1),
                None => None,
            },
            _ => None,
        }
    }

    /// The string, if the value is one.
    pub fn as_str(&self) -> (r: Option<&String>)
        ensures
            match r {
                Some(s) => self.spec_as_str() == Some(s@),
                None => self.spec_as_str() is None,
            },
    {
        match self {
            JsonValue::Str(s) => Some(s),
            _ => None,
        }
    }

    /// The boolean, if the value is one.
    pub fn as_bool(&self) -> (r: Option<bool>)
        ensures
            r == self.spec_as_bool(),
    {
        match self {
            JsonValue::Bool(b) => Some(*b),
            _ => None,
        }
    }

    /// The number, if the value is an integer in `0..=u64::MAX`.
    pub fn as_u64(&self) -> (r: Option<u64>)
        ensures
            r == self.spec_as_u64(),
    {
        match self {
            JsonValue::Number(JsonNumber::PosInt(n)) => Some(*n),
            _ => None,
        }
    }

    /// The items, if the value is an array.
    pub fn as_array(&self) -> (r: Option<&Vec<JsonValue>>)
        ensures
            match r {
                Some(a) => *self == JsonValue::Array(*a),
                None => !(*self is Array),
            },
    {
        match self {
            JsonValue::Array(items) => Some(items),
            _ => None,
        }
    }
}

/// The strings among the items of an array.
pub fn array_to_strings(items: &Vec<JsonValue>) -> (r: Vec<String>)
    ensures
        views(r@) == array_strings(items@),
{
    let mut r: Vec<String> = Vec::new();
    let mut i: usize = 0;
    while i < items.len()
        invariant
            i <= items.len(),
            views(r@) == array_strings(items@.take(i as int)),
        decreases items.len() - i,
    {
        assert(items@.take(i + 1).drop_last() =~= items@.take(i as int));
        match &items[i] {
            JsonValue::Str(s) => {
                r.push(s.clone());
            },
            _ => {},
        }
        assert(views(r@) =~= array_strings(items@.take(i + 1)));
        i = i + 1;
    }
    assert(items@.take(items.len() as int) =~= items@);
    r
}

/// The strings of a list setting: a string gives itself, an
/// array gives its string items; any other value gives none.
#[allow(non_snake_case)]
pub fn valueToVec(v: &JsonValue) -> (r: Vec<String>)
    ensures
        views(r@) == v.spec_strings(),
{
    match v {
        JsonValue::Str(s) => {
            let mut r: Vec<String> = Vec::new();
            r.push(s.clone());
            assert(views(r@) =~= seq![s@]);
            r
        },
        JsonValue::Array(items) => array_to_strings(items),
        _ => Vec::new(),
    }
}

/// The strings of the member named `key` (none when it is missing).
pub fn field_strings(v: &JsonValue, key: &str) -> (r: Vec<String>)
    ensures
        views(r@) == match v.spec_field(key@) {
            Some(f) => f.spec_strings(),
            None => Seq::<Seq<char>>::empty(),
        },
{
    match v.field(key) {
        Some(f) => valueToVec(f),
        None => {
            let r: Vec<String> = Vec::new();
            assert(views(r@) =~= Seq::<Seq<char>>::empty());
            r
        },
    }
}

} // verus!
