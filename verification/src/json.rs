//! A plain-value model of JSON documents.
//!
//! Metadata documents are parsed and rendered by `serde_json`; the rest of the
//! library reads them through [`JsonValue`], whose view [`Json`] is the
//! mathematical value the contracts speak of.

use vstd::prelude::*;

use crate::sorting::{insert_by, sort_by};
use crate::text::{compare_chars, seq_le, to_chars, Order};

verus! {

broadcast use vstd::std_specs::vec::group_vec_axioms;

/// The mathematical value of a JSON document.
pub enum Json {
    Null,
    Bool(bool),
    /// A non-negative integer.
    PosInt(u64),
    /// A negative integer.
    NegInt(i64),
    /// A number with a fraction or exponent, or too large for 64 bits, held
    /// by its shortest decimal rendering.
    Float(Seq<char>),
    Str(Seq<char>),
    Array(Seq<Json>),
    /// Members in the order the value holds them; a value parsed by
    /// `serde_json` holds them sorted by name, each name once (the last
    /// occurrence in the document).
    Object(Seq<(Seq<char>, Json)>),
}

/// A parsed JSON document.
#[derive(Debug)]
pub enum JsonValue {
    Null,
    Bool(bool),
    PosInt(u64),
    NegInt(i64),
    Float(String),
    Str(String),
    Array(Vec<JsonValue>),
    Object(Vec<(String, JsonValue)>),
}

pub open spec fn json_view(v: JsonValue) -> Json
    decreases v,
{
    match v {
        JsonValue::Null => Json::Null,
        JsonValue::Bool(b) => Json::Bool(b),
        JsonValue::PosInt(n) => Json::PosInt(n),
        JsonValue::NegInt(n) => Json::NegInt(n),
        JsonValue::Float(s) => Json::Float(s@),
        JsonValue::Str(s) => Json::Str(s@),
        JsonValue::Array(items) => Json::Array(items_view(items@)),
        JsonValue::Object(entries) => Json::Object(entries_view(entries@)),
    }
}

pub open spec fn items_view(s: Seq<JsonValue>) -> Seq<Json>
    decreases s,
{
    if s.len() == 0 {
        seq![]
    } else {
        items_view(s.drop_last()).push(json_view(s.last()))
    }
}

pub open spec fn entries_view(s: Seq<(String, JsonValue)>) -> Seq<(Seq<char>, Json)>
    decreases s,
{
    if s.len() == 0 {
        seq![]
    } else {
        entries_view(s.drop_last()).push((s.last().0@, json_view(s.last().1)))
    }
}

impl View for JsonValue {
    type V = Json;

    open spec fn view(&self) -> Json {
        json_view(*self)
    }
}

pub broadcast proof fn lemma_items_view(s: Seq<JsonValue>)
    ensures
        #[trigger] items_view(s).len() == s.len(),
        forall|i: int| 0 <= i < s.len() ==> #[trigger] items_view(s)[i] == json_view(s[i]),
    decreases s.len(),
{
    if s.len() > 0 {
        lemma_items_view(s.drop_last());
        assert forall|i: int| 0 <= i < s.len() implies #[trigger] items_view(s)[i] == json_view(s[i]) by {
            if i < s.len() - 1 {
                assert(s.drop_last()[i] == s[i]);
            }
        }
    }
}

pub broadcast proof fn lemma_entries_view(s: Seq<(String, JsonValue)>)
    ensures
        #[trigger] entries_view(s).len() == s.len(),
        forall|i: int| 0 <= i < s.len() ==> #[trigger] entries_view(s)[i] == (s[i].0@, json_view(s[i].1)),
    decreases s.len(),
{
    if s.len() > 0 {
        lemma_entries_view(s.drop_last());
        assert forall|i: int| 0 <= i < s.len() implies #[trigger] entries_view(s)[i] == (s[i].0@, json_view(s[i].1)) by {
            if i < s.len() - 1 {
                assert(s.drop_last()[i] == s[i]);
            }
        }
    }
}

pub broadcast proof fn lemma_items_view_index(s: Seq<JsonValue>, i: int)
    requires
        0 <= i < s.len(),
    ensures
        #[trigger] items_view(s)[i] == json_view(s[i]),
{
    lemma_items_view(s);
}

pub broadcast proof fn lemma_entries_view_index(s: Seq<(String, JsonValue)>, i: int)
    requires
        0 <= i < s.len(),
    ensures
        #[trigger] entries_view(s)[i] == (s[i].0@, json_view(s[i].1)),
{
    lemma_entries_view(s);
}

pub broadcast group group_json_view {
    lemma_items_view,
    lemma_entries_view,
    lemma_items_view_index,
    lemma_entries_view_index,
}

/// The index of the first member of `entries` named `key`, if any.
pub open spec fn find_key(entries: Seq<(Seq<char>, Json)>, key: Seq<char>) -> Option<int> {
    if exists|i: int| 0 <= i < entries.len() && entries[i].0 == key {
        Some(choose|i: int| 0 <= i < entries.len() && entries[i].0 == key
            && forall|j: int| 0 <= j < i ==> entries[j].0 != key)
    } else {
        None
    }
}

/// The value of member `key` of an object (the first such member), or
/// `None` when `v` is not an object or has no such member.
pub open spec fn json_get(v: Json, key: Seq<char>) -> Option<Json> {
    match v {
        Json::Object(entries) => match find_key(entries, key) {
            Some(i) => Some(entries[i].1),
            None => None,
        },
        _ => None,
    }
}

/// The number as a signed 64-bit integer, when it is an integer that fits.
pub open spec fn json_as_i64(v: Json) -> Option<i64> {
    match v {
        Json::PosInt(n) => if n <= i64::MAX {
            Some(n as i64)
        } else {
            None
        },
        Json::NegInt(n) => Some(n),
        _ => None,
    }
}

/// Member `key` of `v`, read as an integer.
pub open spec fn json_field_i64(v: Json, key: Seq<char>) -> Option<i64> {
    match json_get(v, key) {
        Some(x) => json_as_i64(x),
        None => None,
    }
}

/// Member `key` of `v`, read as a string.
pub open spec fn json_field_str(v: Json, key: Seq<char>) -> Option<Seq<char>> {
    match json_get(v, key) {
        Some(Json::Str(s)) => Some(s),
        _ => None,
    }
}

/// Member `key` of `v`, read as an array.
pub open spec fn json_field_array(v: Json, key: Seq<char>) -> Option<Seq<Json>> {
    match json_get(v, key) {
        Some(Json::Array(items)) => Some(items),
        _ => None,
    }
}

/// Member `key` of `v` is present and not `null`.
pub open spec fn json_has_field(v: Json, key: Seq<char>) -> bool {
    match json_get(v, key) {
        Some(Json::Null) => false,
        Some(_) => true,
        None => false,
    }
}

pub proof fn lemma_find_key_first(entries: Seq<(Seq<char>, Json)>, key: Seq<char>, i: int)
    requires
        0 <= i < entries.len(),
        entries[i].0 == key,
        forall|j: int| 0 <= j < i ==> entries[j].0 != key,
    ensures
        find_key(entries, key) == Some(i),
{
    let k = choose|k: int| 0 <= k < entries.len() && entries[k].0 == key
        && forall|j: int| 0 <= j < k ==> entries[j].0 != key;
    assert(0 <= i < entries.len() && entries[i].0 == key
        && forall|j: int| 0 <= j < i ==> entries[j].0 != key);
    if k < i {
        assert(entries[k].0 != key);
    } else if k > i {
        assert(entries[i].0 != key);
    }
}

impl JsonValue {
    /// The member named `key` when `self` is an object (the first such
    /// member); `None` otherwise.
    pub fn get<'a>(&'a self, key: &str) -> (r: Option<&'a JsonValue>)
        ensures
            match r {
                Some(x) => json_get(self@, key@) == Some(x@),
                None => json_get(self@, key@).is_none(),
            },
    {
        broadcast use group_json_view;
        match self {
            JsonValue::Object(entries) => {
                let ghost es = entries_view(entries@);
                proof { lemma_entries_view(entries@); }
                assert(self@ == Json::Object(es));
                let k = to_chars(key);
                let mut i: usize = 0;
                while i < entries.len()
                    invariant
                        es == entries_view(entries@),
                        self@ == Json::Object(es),
                        es.len() == entries@.len(),
                        forall|j: int| 0 <= j < entries@.len() ==> #[trigger] es[j] == (entries@[j].0@, json_view(entries@[j].1)),
                        i <= entries.len(),
                        k@ == key@,
                        forall|j: int| 0 <= j < i ==> es[j].0 != key@,
                    decreases entries.len() - i,
                {
                    let name = to_chars(entries[i].0.as_str());
                    assert(es[i as int] == (entries@[i as int].0@, json_view(entries@[i as int].1)));
                    match compare_chars(&name, &k) {
                        Order::Equal => {
                            proof {
                                assert(es[i as int].0 == key@);
                                lemma_find_key_first(es, key@, i as int);
                                assert(self@ == Json::Object(es));
                                assert(json_get(self@, key@) == Some(es[i as int].1));
                            }
                            return Some(&entries[i].1);
                        },
                        _ => {},
                    }
                    i = i + 1;
                }
                None
            },
            _ => None,
        }
    }

    /// The value as a signed 64-bit integer, if it is an integer that fits.
    pub fn as_i64(&self) -> (r: Option<i64>)
        ensures
            r == json_as_i64(self@),
    {
        match self {
            JsonValue::PosInt(n) => if *n <= 9223372036854775807u64 {
                Some(*n as i64)
            } else {
                None
            },
            JsonValue::NegInt(n) => Some(*n),
            _ => None,
        }
    }

    /// The string, if the value is a string.
    pub fn as_str<'a>(&'a self) -> (r: Option<&'a str>)
        ensures
            match r {
                Some(s) => self@ == Json::Str(s@),
                None => !(self@ is Str),
            },
    {
        match self {
            JsonValue::Str(s) => Some(s.as_str()),
            _ => None,
        }
    }

    /// The elements, if the value is an array.
    pub fn as_array<'a>(&'a self) -> (r: Option<&'a Vec<JsonValue>>)
        ensures
            match r {
                Some(items) => self@ == Json::Array(items_view(items@)),
                None => !(self@ is Array),
            },
    {
        match self {
            JsonValue::Array(items) => Some(items),
            _ => None,
        }
    }

    /// The members, if the value is an object.
    pub fn as_object<'a>(&'a self) -> (r: Option<&'a Vec<(String, JsonValue)>>)
        ensures
            match r {
                Some(entries) => self@ == Json::Object(entries_view(entries@)),
                None => !(self@ is Object),
            },
    {
        match self {
            JsonValue::Object(entries) => Some(entries),
            _ => None,
        }
    }

    /// Whether the value is `null`.
    pub fn is_null(&self) -> (r: bool)
        ensures
            r == (self@ is Null),
    {
        match self {
            JsonValue::Null => true,
            _ => false,
        }
    }
}

} // verus!

