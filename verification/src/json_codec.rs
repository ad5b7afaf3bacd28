//! Reading and writing JSON with `serde_json`, and the canonical member order
//! used when formatting metadata.

use vstd::prelude::*;

use crate::json::{entries_view, group_json_view, json_view, items_view, Json, JsonValue};
use crate::sorting::sort_by;
use crate::text::{compare_chars, seq_le, Order};

verus! {

broadcast use {vstd::std_specs::vec::group_vec_axioms, group_json_view};

/// `serde_json`'s dynamically typed JSON value.
#[verifier::external_type_specification]
#[verifier::external_body]
pub struct ExSerdeValue(serde_json::Value);

/// The number type of `serde_json` values, carried through unread.
#[verifier::external_type_specification]
#[verifier::external_body]
pub struct ExSerdeNumber(serde_json::Number);

/// Converts a `serde_json` value into the library's model, member for member
/// and element for element; a number is kept as an unsigned integer, a
/// negative integer, or (otherwise) the text `serde_json` renders for it.
#[verifier::external_body]
fn from_serde(v: &serde_json::Value) -> JsonValue {
    match v {
        serde_json::Value::Null => JsonValue::Null,
        serde_json::Value::Bool(b) => JsonValue::Bool(*b),
        serde_json::Value::Number(n) => from_number(n),
        serde_json::Value::String(s) => JsonValue::Str(s.clone()),
        serde_json::Value::Array(a) => JsonValue::Array(a.iter().map(from_serde).collect()),
        serde_json::Value::Object(o) => JsonValue::Object(o.iter().map(|(k, x)| (k.clone(), from_serde(x))).collect()),
    }
}

/// Converts a `serde_json` number: an unsigned integer, a negative integer,
/// or (otherwise) the text `serde_json` renders for it.
#[verifier::external_body]
fn from_number(n: &serde_json::Number) -> JsonValue {
    match (n.as_u64(), n.as_i64()) {
        (Some(u), _) => JsonValue::PosInt(u),
        (None, Some(i)) => JsonValue::NegInt(i),
        (None, None) => JsonValue::Float(n.to_string()),
    }
}

/// Converts the library's model back into a `serde_json` value, the inverse
/// of [`from_serde`]; a number held as text is read back by `serde_json`.
#[verifier::external_body]
fn to_serde(v: &JsonValue) -> serde_json::Value {
    match v {
        JsonValue::Null => serde_json::Value::Null,
        JsonValue::Bool(b) => serde_json::Value::Bool(*b),
        JsonValue::PosInt(u) => serde_json::Value::from(*u),
        JsonValue::NegInt(i) => serde_json::Value::from(*i),
        JsonValue::Float(s) => serde_json::from_str(s).unwrap_or(serde_json::Value::Null),
        JsonValue::Str(s) => serde_json::Value::String(s.clone()),
        JsonValue::Array(a) => serde_json::Value::Array(a.iter().map(to_serde).collect()),
        JsonValue::Object(o) => serde_json::Value::Object(o.iter().map(|(k, x)| (k.clone(), to_serde(x))).collect()),
    }
}

/// What `serde_json::from_slice::<serde_json::Value>` yields for `bytes`: the
/// parsed document, or the text of the parse error.
pub uninterp spec fn json_parse(bytes: Seq<u8>) -> Result<Json, Seq<char>>;

/// The bytes `serde_json::to_vec` writes for a value (compact JSON).
pub uninterp spec fn json_compact(v: Json) -> Seq<u8>;

/// The text `serde_json::to_string` writes for a value (compact JSON).
pub uninterp spec fn json_text(v: Json) -> Seq<char>;

/// The bytes `serde_json::to_vec_pretty` writes for a value (two-space
/// indentation).
pub uninterp spec fn json_pretty(v: Json) -> Seq<u8>;

/// Parses `bytes` as one JSON document (`serde_json::from_slice`).
///
/// The contract names the outcome: a value or an error text, both determined
/// by the bytes alone. Nothing is claimed about which byte strings are valid
/// JSON.
#[verifier::external_body]
pub fn parse_json(bytes: &[u8]) -> (r: Result<JsonValue, String>)
    ensures
        match r {
            Ok(v) => json_parse(bytes@) == Ok::<Json, Seq<char>>(v@),
            Err(e) => json_parse(bytes@) == Err::<Json, Seq<char>>(e@),
        },
{
    match serde_json::from_slice::<serde_json::Value>(bytes) {
        Ok(v) => Ok(from_serde(&v)),
        Err(e) => Err(e.to_string()),
    }
}

/// Serializes a value as compact JSON bytes (`serde_json::to_vec`); the
/// contract names the result as a function of the value.
#[verifier::external_body]
pub fn to_compact_bytes(v: &JsonValue) -> (r: Vec<u8>)
    ensures
        r@ == json_compact(v@),
{
    serde_json::to_vec(&to_serde(v)).unwrap_or_default()
}

/// Renders a value as compact JSON text (`serde_json::to_string`); the
/// contract names the result as a function of the value.
#[verifier::external_body]
pub fn to_compact_text(v: &JsonValue) -> (r: String)
    ensures
        r@ == json_text(v@),
{
    serde_json::to_string(&to_serde(v)).unwrap_or_default()
}

/// Serializes a value as indented JSON bytes (`serde_json::to_vec_pretty`);
/// the contract names the result as a function of the value.
#[verifier::external_body]
pub fn to_pretty_bytes(v: &JsonValue) -> (r: Vec<u8>)
    ensures
        r@ == json_pretty(v@),
{
    serde_json::to_vec_pretty(&to_serde(v)).unwrap_or_default()
}

/// Orders object members by name.
pub open spec fn entry_le() -> spec_fn((Seq<char>, Json), (Seq<char>, Json)) -> bool {
    |a: (Seq<char>, Json), b: (Seq<char>, Json)| seq_le(a.0, b.0)
}

/// The value with the members of every object, at every depth, stably
/// sorted by name; array order is kept.
pub open spec fn json_sort_keys(v: Json) -> Json
    decreases v,
{
    match v {
        Json::Array(items) => Json::Array(sort_keys_items(items)),
        Json::Object(entries) => Json::Object(sort_by(sort_keys_entries(entries), entry_le())),
        _ => v,
    }
}

pub open spec fn sort_keys_items(s: Seq<Json>) -> Seq<Json>
    decreases s,
{
    if s.len() == 0 {
        seq![]
    } else {
        sort_keys_items(s.drop_last()).push(json_sort_keys(s.last()))
    }
}

pub open spec fn sort_keys_entries(s: Seq<(Seq<char>, Json)>) -> Seq<(Seq<char>, Json)>
    decreases s,
{
    if s.len() == 0 {
        seq![]
    } else {
        sort_keys_entries(s.drop_last()).push((s.last().0, json_sort_keys(s.last().1)))
    }
}

/// Sorts members by name, stably.
fn sort_entries(v: Vec<(String, JsonValue)>) -> (r: Vec<(String, JsonValue)>)
    ensures
        entries_view(r@) == sort_by(entries_view(v@), entry_le()),
{
    broadcast use group_json_view;
    let mut out: Vec<(String, JsonValue)> = Vec::new();
    let mut rest = v;
    let ghost orig = entries_view(rest@);
    let ghost n = rest@.len();
    assert(n == rest.len());
    assert(orig.skip(0) =~= orig);
    let mut i: usize = 0;
    while rest.len() > 0
        invariant
            orig.len() == n,
            n <= usize::MAX,
            rest@.len() + i == n,
            entries_view(rest@) == orig.skip(i as int),
            entries_view(out@) == sort_by(orig.take(i as int), entry_le()),
        decreases rest.len(),
    {
        let ghost before_rest = rest@;
        let x = rest.remove(0);
        let ghost xv = (x.0@, json_view(x.1));
        assert(entries_view(before_rest)[0] == xv);
        assert(xv == orig[i as int]);
        assert(entries_view(rest@) =~= orig.skip(i + 1)) by {
            assert(rest@ =~= before_rest.skip(1));
            assert forall|k: int| 0 <= k < rest@.len() implies entries_view(rest@)[k] == orig.skip(i + 1)[k] by {
                assert(rest@[k] == before_rest[k + 1]);
                assert(entries_view(before_rest)[k + 1] == orig.skip(i as int)[k + 1]);
            }
        }
        let key = crate::text::to_chars(x.0.as_str());
        let mut p = out.len();
        loop
            invariant
                p <= out@.len(),
                key@ == x.0@,
                xv == (x.0@, json_view(x.1)),
                forall|k: int| p <= k < out@.len() ==> !entry_le()(#[trigger] entries_view(out@)[k], xv),
            ensures
                p <= out@.len(),
                forall|k: int| p <= k < out@.len() ==> !entry_le()(#[trigger] entries_view(out@)[k], xv),
                p > 0 ==> entry_le()(entries_view(out@)[p - 1], xv),
            decreases p,
        {
            if p == 0 {
                break;
            }
            let prev = crate::text::to_chars(out[p - 1].0.as_str());
            assert(entries_view(out@)[p - 1] == (out@[p - 1].0@, json_view(out@[p - 1].1)));
            let greater = match compare_chars(&prev, &key) {
                Order::Greater => true,
                _ => false,
            };
            if !greater {
                proof {
                    crate::text::lemma_seq_le_total(prev@, key@);
                }
                break;
            }
            p = p - 1;
        }
        proof {
            let s = entries_view(out@);
            crate::sorting::lemma_insert_pos_unique(s, xv, entry_le(), p as int);
            crate::sorting::lemma_insert_pos(s, xv, entry_le());
            assert(orig.take(i + 1).drop_last() =~= orig.take(i as int));
        }
        let ghost before = out@;
        out.insert(p, x);
        assert(entries_view(out@) =~= entries_view(before).take(p as int).push(xv) + entries_view(before).skip(p as int));
        i = i + 1;
    }
    assert(orig.take(n as int) =~= orig);
    out
}

} // verus!

verus! {

proof fn lemma_items_take(s: Seq<JsonValue>, i: int)
    requires
        0 <= i < s.len(),
    ensures
        items_view(s.take(i + 1)) == items_view(s.take(i)).push(json_view(s[i])),
        items_view(s.take(i + 1)).drop_last() == items_view(s.take(i)),
{
    assert(items_view(s.take(i + 1)) =~= items_view(s.take(i)).push(json_view(s[i])));
}

proof fn lemma_entries_take(s: Seq<(String, JsonValue)>, i: int)
    requires
        0 <= i < s.len(),
    ensures
        entries_view(s.take(i + 1)) == entries_view(s.take(i)).push((s[i].0@, json_view(s[i].1))),
{
    assert(entries_view(s.take(i + 1)) =~= entries_view(s.take(i)).push((s[i].0@, json_view(s[i].1))));
}

/// Returns the value with the members of every object sorted by name
/// (stably), at every depth; array order is kept.
pub fn sort_objects(v: &JsonValue) -> (r: JsonValue)
    ensures
        r@ == json_sort_keys(v@),
    decreases v,
{
    match v {
        JsonValue::Array(items) => {
            let mut out: Vec<JsonValue> = Vec::new();
            let mut i: usize = 0;
            assert(items@.take(0) =~= Seq::<JsonValue>::empty());
            assert(items_view(out@) =~= sort_keys_items(items_view(items@.take(0))));
            while i < items.len()
                invariant
                    i <= items@.len(),
                    out@.len() == i,
                    items_view(out@) == sort_keys_items(items_view(items@.take(i as int))),
                    *v == JsonValue::Array(*items),
                decreases items.len() - i,
            {
                proof {
                    assert(decreases_to!(*v => v->Array_0));
                    assert(v->Array_0 == *items);
                    assert(decreases_to!(*items => items@));
                    assert(decreases_to!(items@ => items@[i as int]));
                    assert(decreases_to!(*v => items@[i as int]));
                }
                let x = sort_objects(&items[i]);
                proof {
                    lemma_items_take(items@, i as int);
                }
                let ghost before = out@;
                out.push(x);
                assert(items_view(out@) =~= items_view(before).push(x@));
                i = i + 1;
            }
            assert(items@.take(i as int) =~= items@);
            JsonValue::Array(out)
        },
        JsonValue::Object(entries) => {
            let mut out: Vec<(String, JsonValue)> = Vec::new();
            let mut i: usize = 0;
            assert(entries@.take(0) =~= Seq::<(String, JsonValue)>::empty());
            assert(entries_view(out@) =~= sort_keys_entries(entries_view(entries@.take(0))));
            while i < entries.len()
                invariant
                    i <= entries@.len(),
                    out@.len() == i,
                    entries_view(out@) == sort_keys_entries(entries_view(entries@.take(i as int))),
                    *v == JsonValue::Object(*entries),
                decreases entries.len() - i,
            {
                proof {
                    assert(decreases_to!(*v => v->Object_0));
                    assert(v->Object_0 == *entries);
                    assert(decreases_to!(*entries => entries@));
                    assert(decreases_to!(entries@ => entries@[i as int]));
                    assert(decreases_to!(entries@[i as int] => entries@[i as int].1));
                    assert(decreases_to!(*v => entries@[i as int].1));
                }
                let x = sort_objects(&entries[i].1);
                let k = entries[i].0.clone();
                proof {
                    lemma_entries_take(entries@, i as int);
                    assert(entries_view(entries@.take(i + 1)).drop_last() =~= entries_view(entries@.take(i as int)));
                }
                let ghost before = out@;
                out.push((k, x));
                assert(entries_view(out@) =~= entries_view(before).push((k@, x@)));
                i = i + 1;
            }
            assert(entries@.take(i as int) =~= entries@);
            let sorted = sort_entries(out);
            JsonValue::Object(sorted)
        },
        JsonValue::Null => JsonValue::Null,
        JsonValue::Bool(b) => JsonValue::Bool(*b),
        JsonValue::PosInt(n) => JsonValue::PosInt(*n),
        JsonValue::NegInt(n) => JsonValue::NegInt(*n),
        JsonValue::Float(s) => JsonValue::Float(s.clone()),
        JsonValue::Str(s) => JsonValue::Str(s.clone()),
    }
}

/// A copy of the value.
pub fn duplicate(v: &JsonValue) -> (r: JsonValue)
    ensures
        r@ == v@,
    decreases v,
{
    match v {
        JsonValue::Array(items) => {
            let mut out: Vec<JsonValue> = Vec::new();
            let mut i: usize = 0;
            while i < items.len()
                invariant
                    i <= items@.len(),
                    out@.len() == i,
                    forall|k: int| 0 <= k < i ==> #[trigger] json_view(out@[k]) == json_view(items@[k]),
                    *v == JsonValue::Array(*items),
                decreases items.len() - i,
            {
                proof {
                    assert(decreases_to!(*v => v->Array_0));
                    assert(v->Array_0 == *items);
                    assert(decreases_to!(*items => items@));
                    assert(decreases_to!(items@ => items@[i as int]));
                    assert(decreases_to!(*v => items@[i as int]));
                }
                let x = duplicate(&items[i]);
                out.push(x);
                i = i + 1;
            }
            assert(items_view(out@) =~= items_view(items@));
            JsonValue::Array(out)
        },
        JsonValue::Object(entries) => {
            let mut out: Vec<(String, JsonValue)> = Vec::new();
            let mut i: usize = 0;
            while i < entries.len()
                invariant
                    i <= entries@.len(),
                    out@.len() == i,
                    forall|k: int| 0 <= k < i ==> #[trigger] out@[k].0@ == entries@[k].0@
                        && json_view(out@[k].1) == json_view(entries@[k].1),
                    *v == JsonValue::Object(*entries),
                decreases entries.len() - i,
            {
                proof {
                    assert(decreases_to!(*v => v->Object_0));
                    assert(v->Object_0 == *entries);
                    assert(decreases_to!(*entries => entries@));
                    assert(decreases_to!(entries@ => entries@[i as int]));
                    assert(decreases_to!(entries@[i as int] => entries@[i as int].1));
                    assert(decreases_to!(*v => entries@[i as int].1));
                }
                let x = duplicate(&entries[i].1);
                let k = entries[i].0.clone();
                assert(k@ == entries@[i as int].0@);
                let ghost before = out@;
                out.push((k, x));
                assert forall|j: int| 0 <= j < i + 1 implies #[trigger] out@[j].0@ == entries@[j].0@
                    && json_view(out@[j].1) == json_view(entries@[j].1) by {
                    if j < i {
                        assert(out@[j] == before[j]);
                        assert(before[j].0@ == entries@[j].0@);
                    }
                }
                i = i + 1;
            }
            assert(entries_view(out@) =~= entries_view(entries@));
            JsonValue::Object(out)
        },
        JsonValue::Null => JsonValue::Null,
        JsonValue::Bool(b) => JsonValue::Bool(*b),
        JsonValue::PosInt(n) => JsonValue::PosInt(*n),
        JsonValue::NegInt(n) => JsonValue::NegInt(*n),
        JsonValue::Float(s) => JsonValue::Float(s.clone()),
        JsonValue::Str(s) => JsonValue::Str(s.clone()),
    }
}

/// Whether two values are the same JSON value.
pub fn json_equal(a: &JsonValue, b: &JsonValue) -> (r: bool)
    ensures
        r == (a@ == b@),
    decreases a,
{
    match (a, b) {
        (JsonValue::Null, JsonValue::Null) => true,
        (JsonValue::Bool(x), JsonValue::Bool(y)) => *x == *y,
        (JsonValue::PosInt(x), JsonValue::PosInt(y)) => *x == *y,
        (JsonValue::NegInt(x), JsonValue::NegInt(y)) => *x == *y,
        (JsonValue::Float(x), JsonValue::Float(y)) => *x == *y,
        (JsonValue::Str(x), JsonValue::Str(y)) => *x == *y,
        (JsonValue::Array(xs), JsonValue::Array(ys)) => {
            if xs.len() != ys.len() {
                assert(items_view(xs@).len() != items_view(ys@).len());
                return false;
            }
            let mut i: usize = 0;
            while i < xs.len()
                invariant
                    i <= xs@.len(),
                    xs@.len() == ys@.len(),
                    forall|k: int| 0 <= k < i ==> #[trigger] json_view(xs@[k]) == json_view(ys@[k]),
                    *a == JsonValue::Array(*xs),
                    *b == JsonValue::Array(*ys),
                decreases xs.len() - i,
            {
                proof {
                    assert(decreases_to!(*a => a->Array_0));
                    assert(a->Array_0 == *xs);
                    assert(decreases_to!(*xs => xs@));
                    assert(decreases_to!(xs@ => xs@[i as int]));
                    assert(decreases_to!(*a => xs@[i as int]));
                }
                if !json_equal(&xs[i], &ys[i]) {
                    assert(items_view(xs@)[i as int] != items_view(ys@)[i as int]);
                    return false;
                }
                i = i + 1;
            }
            assert(items_view(xs@) =~= items_view(ys@));
            true
        },
        (JsonValue::Object(xs), JsonValue::Object(ys)) => {
            if xs.len() != ys.len() {
                assert(entries_view(xs@).len() != entries_view(ys@).len());
                return false;
            }
            let mut i: usize = 0;
            while i < xs.len()
                invariant
                    i <= xs@.len(),
                    xs@.len() == ys@.len(),
                    forall|k: int| 0 <= k < i ==> #[trigger] entries_view(xs@)[k] == entries_view(ys@)[k],
                    *a == JsonValue::Object(*xs),
                    *b == JsonValue::Object(*ys),
                decreases xs.len() - i,
            {
                proof {
                    assert(decreases_to!(*a => a->Object_0));
                    assert(a->Object_0 == *xs);
                    assert(decreases_to!(*xs => xs@));
                    assert(decreases_to!(xs@ => xs@[i as int]));
                    assert(decreases_to!(xs@[i as int] => xs@[i as int].1));
                    assert(decreases_to!(*a => xs@[i as int].1));
                }
                if xs[i].0 != ys[i].0 {
                    assert(entries_view(xs@)[i as int] != entries_view(ys@)[i as int]);
                    return false;
                }
                if !json_equal(&xs[i].1, &ys[i].1) {
                    assert(entries_view(xs@)[i as int] != entries_view(ys@)[i as int]);
                    return false;
                }
                i = i + 1;
            }
            assert(entries_view(xs@) =~= entries_view(ys@));
            true
        },
        _ => false,
    }
}

} // verus!
