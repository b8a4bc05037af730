//! A JSON value as the library reads and writes it: the GitHub event payload
//! a run is triggered with, and the `repository_dispatch` client payload.
//! Numbers are held as what the logic reads of them: their value when it is
//! a non-negative integer that fits in `u64`.

use vstd::prelude::*;

use crate::text::str_eq;

verus! {

/// The view of a [`JsonValue`].
pub enum JsonView {
    Null,
    Bool(bool),
    Number(Option<u64>),
    Str(Seq<char>),
    Array(Seq<JsonView>),
    Object(Seq<(Seq<char>, JsonView)>),
}

/// A JSON value. `Number` holds the number's value when it is a
/// non-negative integer that fits in `u64`, and `None` for any other number.
#[derive(Debug, PartialEq, Eq)]
pub enum JsonValue {
    Null,
    Bool(bool),
    Number(Option<u64>),
    String(String),
    Array(Vec<JsonValue>),
    Object(Vec<(String, JsonValue)>),
}

impl View for JsonValue {
    type V = JsonView;

    open spec fn view(&self) -> JsonView {
        json_view(*self)
    }
}

/// The view of a JSON value.
pub open spec fn json_view(v: JsonValue) -> JsonView
    decreases v, 0int,
{
    match v {
        JsonValue::Null => JsonView::Null,
        JsonValue::Bool(b) => JsonView::Bool(b),
        JsonValue::Number(n) => JsonView::Number(n),
        JsonValue::String(s) => JsonView::Str(s@),
        JsonValue::Array(items) => JsonView::Array(json_views(items@, 0)),
        JsonValue::Object(entries) => JsonView::Object(entry_views(entries@, 0)),
    }
}

/// The views of `items[i..]`.
pub open spec fn json_views(items: Seq<JsonValue>, i: int) -> Seq<JsonView>
    decreases items, items.len() - i,
{
    if 0 <= i < items.len() {
        seq![json_view(items[i])] + json_views(items, i + 1)
    } else {
        Seq::<JsonView>::empty()
    }
}

/// The views of the entries `entries[i..]`.
pub open spec fn entry_views(entries: Seq<(String, JsonValue)>, i: int) -> Seq<(Seq<char>, JsonView)>
    decreases entries, entries.len() - i,
{
    if 0 <= i < entries.len() {
        seq![(entries[i].0@, json_view(entries[i].1))] + entry_views(entries, i + 1)
    } else {
        Seq::<(Seq<char>, JsonView)>::empty()
    }
}

proof fn lemma_json_views(items: Seq<JsonValue>, i: int)
    requires
        0 <= i <= items.len(),
    ensures
        json_views(items, i).len() == items.len() - i,
        forall|k: int| 0 <= k < items.len() - i ==> #[trigger] json_views(items, i)[k] == items[i + k]@,
    decreases items.len() - i,
{
    if i < items.len() {
        lemma_json_views(items, i + 1);
        assert forall|k: int| 0 <= k < items.len() - i implies #[trigger] json_views(items, i)[k] == items[i + k]@ by {
            if k > 0 {
                assert(json_views(items, i)[k] == json_views(items, i + 1)[k - 1]);
            }
        }
    }
}

proof fn lemma_entry_views(entries: Seq<(String, JsonValue)>, i: int)
    requires
        0 <= i <= entries.len(),
    ensures
        entry_views(entries, i).len() == entries.len() - i,
        forall|k: int| 0 <= k < entries.len() - i ==> #[trigger] entry_views(entries, i)[k] == (entries[i + k].0@, entries[i + k].1@),
    decreases entries.len() - i,
{
    if i < entries.len() {
        lemma_entry_views(entries, i + 1);
        assert forall|k: int| 0 <= k < entries.len() - i implies #[trigger] entry_views(entries, i)[k] == (entries[i + k].0@, entries[i + k].1@) by {
            if k > 0 {
                assert(entry_views(entries, i)[k] == entry_views(entries, i + 1)[k - 1]);
            }
        }
    }
}

/// The view of an array lists the views of its items.
pub proof fn lemma_array_view(items: Vec<JsonValue>)
    ensures
        JsonValue::Array(items)@ matches JsonView::Array(v) && v.len() == items@.len() && forall|k: int|
            0 <= k < v.len() ==> #[trigger] v[k] == items@[k]@,
{
    lemma_json_views(items@, 0);
    assert forall|k: int| 0 <= k < items@.len() implies #[trigger] json_views(items@, 0)[k] == items@[k]@ by {
        assert(items@[0 + k] == items@[k]);
    }
}

/// The view of an object lists its entries' names and value views.
pub proof fn lemma_object_view(entries: Vec<(String, JsonValue)>)
    ensures
        JsonValue::Object(entries)@ matches JsonView::Object(v) && v.len() == entries@.len() && forall|k: int|
            0 <= k < v.len() ==> #[trigger] v[k] == (entries@[k].0@, entries@[k].1@),
{
    lemma_entry_views(entries@, 0);
    assert forall|k: int| 0 <= k < entries@.len() implies #[trigger] entry_views(entries@, 0)[k] == (entries@[k].0@, entries@[k].1@) by {
        assert(entries@[0 + k] == entries@[k]);
    }
}

/// The value of the first entry named `key`.
pub open spec fn entry_value(entries: Seq<(Seq<char>, JsonView)>, key: Seq<char>) -> Option<JsonView>
    decreases entries.len(),
{
    if entries.len() == 0 {
        None
    } else if entries[0].0 == key {
        Some(entries[0].1)
    } else {
        entry_value(entries.drop_first(), key)
    }
}

/// The member `key` of an object (`None` for any other value).
pub open spec fn json_get(v: JsonView, key: Seq<char>) -> Option<JsonView> {
    match v {
        JsonView::Object(entries) => entry_value(entries, key),
        _ => None,
    }
}

/// The contents of a string value.
pub open spec fn json_str(v: JsonView) -> Option<Seq<char>> {
    match v {
        JsonView::Str(s) => Some(s),
        _ => None,
    }
}

/// The value of a number that is a non-negative integer fitting `u64`.
pub open spec fn json_u64(v: JsonView) -> Option<u64> {
    match v {
        JsonView::Number(n) => n,
        _ => None,
    }
}

/// The value reached by following the member names of `path` in turn.
pub open spec fn json_path(v: JsonView, path: Seq<Seq<char>>) -> Option<JsonView>
    decreases path.len(),
{
    if path.len() == 0 {
        Some(v)
    } else {
        match json_get(v, path[0]) {
            Some(c) => json_path(c, path.drop_first()),
            None => None,
        }
    }
}

/// The string at `path`, if there is one.
pub open spec fn json_path_str(v: JsonView, path: Seq<Seq<char>>) -> Option<Seq<char>> {
    match json_path(v, path) {
        Some(x) => json_str(x),
        None => None,
    }
}

/// The views of a list of member names.
pub open spec fn names_view(path: Seq<&str>) -> Seq<Seq<char>> {
    path.map_values(|k: &str| k@)
}

/// The view of a JSON array of strings.
pub open spec fn string_array_view(items: Seq<Seq<char>>) -> JsonView {
    JsonView::Array(items.map_values(|a: Seq<char>| JsonView::Str(a)))
}

/// A JSON array holding the strings of `v`, in order.
pub fn string_array(v: &Vec<String>) -> (r: JsonValue)
    ensures
        r@ == string_array_view(v@.map_values(|s: String| s@)),
{
    let mut items: Vec<JsonValue> = Vec::new();
    let mut i: usize = 0;
    while i < v.len()
        invariant
            0 <= i <= v@.len(),
            items@.len() == i,
            forall|k: int| 0 <= k < i ==> #[trigger] items@[k]@ == JsonView::Str(v@[k]@),
        decreases v.len() - i,
    {
        items.push(JsonValue::String(v[i].clone()));
        i = i + 1;
    }
    let ghost want = string_array_view(v@.map_values(|s: String| s@));
    proof {
        lemma_array_view(items);
    }
    let r = JsonValue::Array(items);
    assert(r@ == want) by {
        assert(r@->Array_0 =~= want->Array_0);
    }
    r
}

impl JsonValue {
    /// The member `key` of an object; `None` for a missing member or any
    /// other kind of value.
    pub fn get(&self, key: &str) -> (r: Option<&JsonValue>)
        ensures
            match r {
                Some(c) => json_get(self@, key@) == Some(c@),
                None => json_get(self@, key@) is None,
            },
    {
        match self {
            JsonValue::Object(entries) => {
                proof {
                    lemma_object_view(*entries);
                }
                let ghost ev = match self@ {
                    JsonView::Object(es) => es,
                    _ => Seq::empty(),
                };
                proof {
                    assert(ev.skip(0) == ev);
                }
                let mut i: usize = 0;
                while i < entries.len()
                    invariant
                        0 <= i <= entries@.len(),
                        ev.len() == entries@.len(),
                        forall|k: int| 0 <= k < ev.len() ==> #[trigger] ev[k] == (entries@[k].0@, entries@[k].1@),
                        json_get(self@, key@) == entry_value(ev.skip(i as int), key@),
                    decreases entries.len() - i,
                {
                    proof {
                        assert(ev.skip(i as int)[0] == ev[i as int]);
                        assert(ev.skip(i as int).drop_first() == ev.skip(i + 1));
                    }
                    if str_eq(entries[i].0.as_str(), key) {
                        return Some(&entries[i].1);
                    }
                    i = i + 1;
                }
                None
            },
            _ => None,
        }
    }

    /// A copy of this value.
    pub fn duplicate(&self) -> (r: JsonValue)
        ensures
            r@ == self@,
        decreases self@,
    {
        match self {
            JsonValue::Null => JsonValue::Null,
            JsonValue::Bool(b) => JsonValue::Bool(*b),
            JsonValue::Number(n) => JsonValue::Number(*n),
            JsonValue::String(s) => JsonValue::String(s.clone()),
            JsonValue::Array(items) => {
                proof {
                    lemma_array_view(*items);
                }
                let ghost iv = self@->Array_0;
                let mut out: Vec<JsonValue> = Vec::new();
                let mut i: usize = 0;
                while i < items.len()
                    invariant
                        0 <= i <= items@.len(),
                        self@ == JsonView::Array(iv),
                        iv.len() == items@.len(),
                        forall|k: int| 0 <= k < iv.len() ==> #[trigger] iv[k] == items@[k]@,
                        out@.len() == i,
                        forall|k: int| 0 <= k < i ==> #[trigger] out@[k]@ == iv[k],
                    decreases items.len() - i,
                {
                    proof {
                        assert(decreases_to!(self@ => self@->Array_0));
                        assert(decreases_to!(iv => iv[i as int]));
                    }
                    out.push(items[i].duplicate());
                    i = i + 1;
                }
                let r = JsonValue::Array(out);
                proof {
                    lemma_array_view(out);
                }
                assert(r@->Array_0 =~= iv);
                r
            },
            JsonValue::Object(entries) => {
                proof {
                    lemma_object_view(*entries);
                }
                let ghost ev = self@->Object_0;
                let mut out: Vec<(String, JsonValue)> = Vec::new();
                let mut i: usize = 0;
                while i < entries.len()
                    invariant
                        0 <= i <= entries@.len(),
                        self@ == JsonView::Object(ev),
                        ev.len() == entries@.len(),
                        forall|k: int| 0 <= k < ev.len() ==> #[trigger] ev[k] == (entries@[k].0@, entries@[k].1@),
                        out@.len() == i,
                        forall|k: int| 0 <= k < i ==> #[trigger] ev[k] == (out@[k].0@, out@[k].1@),
                    decreases entries.len() - i,
                {
                    proof {
                        assert(decreases_to!(self@ => self@->Object_0));
                        assert(decreases_to!(ev => ev[i as int]));
                        assert(decreases_to!(ev[i as int] => ev[i as int].1));
                    }
                    let k = entries[i].0.clone();
                    let v = entries[i].1.duplicate();
                    out.push((k, v));
                    i = i + 1;
                }
                let r = JsonValue::Object(out);
                proof {
                    lemma_object_view(out);
                }
                assert(r@->Object_0 =~= ev);
                r
            },
        }
    }

    /// The contents of a string value.
    pub fn as_str(&self) -> (r: Option<&String>)
        ensures
            match r {
                Some(s) => json_str(self@) == Some(s@),
                None => json_str(self@) is None,
            },
    {
        match self {
            JsonValue::String(s) => Some(s),
            _ => None,
        }
    }

    /// The value of a number that is a non-negative integer fitting `u64`.
    pub fn as_u64(&self) -> (r: Option<u64>)
        ensures
            r == json_u64(self@),
    {
        match self {
            JsonValue::Number(n) => *n,
            _ => None,
        }
    }

    /// The value reached by following the member names of `path` in turn.
    pub fn path(&self, path: &[&str]) -> (r: Option<&JsonValue>)
        ensures
            match r {
                Some(c) => json_path(self@, names_view(path@)) == Some(c@),
                None => json_path(self@, names_view(path@)) is None,
            },
    {
        let ghost pv = names_view(path@);
        let mut cur = self;
        let mut i: usize = 0;
        proof {
            assert(pv.skip(0) == pv);
        }
        while i < path.len()
            invariant
                0 <= i <= path@.len(),
                pv == names_view(path@),
                json_path(self@, pv) == json_path(cur@, pv.skip(i as int)),
            decreases path.len() - i,
        {
            proof {
                assert(pv.skip(i as int)[0] == path@[i as int]@);
                assert(pv.skip(i as int).drop_first() == pv.skip(i + 1));
            }
            match cur.get(path[i]) {
                Some(c) => {
                    cur = c;
                },
                None => {
                    return None;
                },
            }
            i = i + 1;
        }
        proof {
            assert(pv.skip(i as int).len() == 0);
        }
        Some(cur)
    }

    /// The string at `path`, if there is one.
    pub fn path_str(&self, path: &[&str]) -> (r: Option<&String>)
        ensures
            match r {
                Some(s) => json_path_str(self@, names_view(path@)) == Some(s@),
                None => json_path_str(self@, names_view(path@)) is None,
            },
    {
        match self.path(path) {
            Some(v) => v.as_str(),
            None => None,
        }
    }
}


/// Declares `serde_json::Value`, the document that `serde_json` parses a
/// JSON text into. Its contents are read only by the conversion below.
#[verifier::external_type_specification]
#[verifier::external_body]
pub struct ExSerdeJsonValue(serde_json::Value);

/// The document that `serde_json` parses `text` into, as a [`JsonView`];
/// `None` when `serde_json` refuses the text.
pub uninterp spec fn json_text(text: Seq<char>) -> Option<JsonView>;

/// Parses `text` with `serde_json::from_str` into a `serde_json::Value` and
/// converts the document to a [`JsonValue`]. The contract names the result:
/// which texts `serde_json` accepts, and in which order it keeps the
/// members of an object, are left to that crate and not restated here.
#[verifier::external_body]
pub(crate) fn parse_json_text(text: &str) -> (r: Option<JsonValue>)
    ensures
        match r {
            Some(v) => json_text(text@) == Some(v@),
            None => json_text(text@) is None,
        },
{
    match serde_json::from_str::<serde_json::Value>(text) {
        Ok(doc) => Some(from_serde_value(&doc)),
        Err(_) => None,
    }
}

/// The value-for-value conversion of a parsed `serde_json::Value` that
/// `parse_json_text` applies: each number becomes its `as_u64` reading.
#[verifier::external_body]
fn from_serde_value(v: &serde_json::Value) -> JsonValue {
    match v {
        serde_json::Value::Null => JsonValue::Null,
        serde_json::Value::Bool(b) => JsonValue::Bool(*b),
        serde_json::Value::Number(n) => JsonValue::Number(n.as_u64()),
        serde_json::Value::String(t) => JsonValue::String(t.clone()),
        serde_json::Value::Array(items) => JsonValue::Array(items.iter().map(from_serde_value).collect()),
        serde_json::Value::Object(members) => {
            JsonValue::Object(members.iter().map(|(k, m)| (k.clone(), from_serde_value(m))).collect())
        },
    }
}

} // verus!
