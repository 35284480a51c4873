//! The JSON values that the logo search reads, parsed by `serde_json`.

use vstd::prelude::*;

verus! {

/// A JSON value as the logo search sees it. Numbers carry no payload: the
/// search never reads one. An object lists its members in the order in which
/// `serde_json`'s map yields them.
pub enum JsonValue {
    Null,
    Bool(bool),
    Number,
    Str(String),
    Array(Vec<JsonValue>),
    Object(Vec<(String, JsonValue)>),
}

/// The mathematical form of a `JsonValue`.
pub enum JsonView {
    Null,
    Bool(bool),
    Number,
    Str(Seq<char>),
    Array(Seq<JsonView>),
    Object(Seq<(Seq<char>, JsonView)>),
}

/// The mathematical form of `v`.
pub open spec fn json_view(v: JsonValue) -> JsonView
    decreases v,
{
    match v {
        JsonValue::Null => JsonView::Null,
        JsonValue::Bool(b) => JsonView::Bool(b),
        JsonValue::Number => JsonView::Number,
        JsonValue::Str(s) => JsonView::Str(s@),
        JsonValue::Array(a) => JsonView::Array(
            Seq::new(
                a@.len(),
                |i: int|
                    if 0 <= i < a@.len() {
                        json_view(a@[i])
                    } else {
                        JsonView::Null
                    },
            ),
        ),
        JsonValue::Object(o) => JsonView::Object(
            Seq::new(
                o@.len(),
                |i: int|
                    if 0 <= i < o@.len() {
                        (o@[i].0@, json_view(o@[i].1))
                    } else {
                        (Seq::empty(), JsonView::Null)
                    },
            ),
        ),
    }
}

impl View for JsonValue {
    type V = JsonView;

    open spec fn view(&self) -> JsonView {
        json_view(*self)
    }
}

/// No object in `v`, at any depth, names two members alike.
pub open spec fn distinct_members(v: JsonView) -> bool
    decreases v,
{
    match v {
        JsonView::Object(o) => {
            &&& forall|i: int, j: int| 0 <= i < j < o.len() ==> o[i].0 != o[j].0
            &&& forall|i: int| 0 <= i < o.len() ==> distinct_members(#[trigger] o[i].1)
        },
        JsonView::Array(a) => forall|i: int| 0 <= i < a.len() ==> distinct_members(#[trigger] a[i]),
        _ => true,
    }
}

/// What `serde_json::from_slice::<serde_json::Value>` gives for `bytes`:
/// `None` where it returns an error.
pub uninterp spec fn json_parse(bytes: Seq<u8>) -> Option<JsonView>;

/// Parses `bytes` as one JSON document with `serde_json::from_slice`; the
/// result is named `json_parse`. Its objects come from `serde_json`'s map, a
/// `BTreeMap` keyed by member name, so no object names two members alike.
#[verifier::external_body]
pub(crate) fn parse_json(bytes: &[u8]) -> (r: Option<JsonValue>)
    ensures
        match r {
            Some(v) => json_parse(bytes@) == Some(v@),
            None => json_parse(bytes@) is None,
        },
        r matches Some(v) ==> distinct_members(v@),
{
    match serde_json::from_slice::<serde_json::Value>(bytes) {
        Ok(v) => Some(from_serde(v)),
        Err(_) => None,
    }
}

/// `serde_json::Value`, carried opaquely from the parser to `from_serde`.
#[verifier::external_type_specification]
#[verifier::external_body]
pub struct ExSerdeValue(serde_json::Value);

/// Moves a `serde_json::Value` into a `JsonValue`, variant by variant; the
/// conversion step of `parse_json`, which is its only caller.
#[verifier::external_body]
fn from_serde(v: serde_json::Value) -> JsonValue {
    match v {
        serde_json::Value::Null => JsonValue::Null,
        serde_json::Value::Bool(b) => JsonValue::Bool(b),
        serde_json::Value::Number(_) => JsonValue::Number,
        serde_json::Value::String(s) => JsonValue::Str(s),
        serde_json::Value::Array(a) => JsonValue::Array(a.into_iter().map(from_serde).collect()),
        serde_json::Value::Object(o) => JsonValue::Object(
            o.into_iter().map(|(k, x)| (k, from_serde(x))).collect(),
        ),
    }
}

/// The value of the first member of `entries` named `key`.
pub open spec fn lookup(entries: Seq<(Seq<char>, JsonView)>, key: Seq<char>) -> Option<JsonView>
    decreases entries.len(),
{
    if entries.len() == 0 {
        None
    } else if entries[0].0 == key {
        Some(entries[0].1)
    } else {
        lookup(entries.drop_first(), key)
    }
}

/// The members of an object, by their names and values.
pub open spec fn members_view(o: Seq<(String, JsonValue)>) -> Seq<(Seq<char>, JsonView)> {
    Seq::new(o.len(), |i: int| (o[i].0@, json_view(o[i].1)))
}

/// The items of an array, by their values.
pub open spec fn items_view(a: Seq<JsonValue>) -> Seq<JsonView> {
    Seq::new(a.len(), |i: int| json_view(a[i]))
}

/// An object is viewed member by member, an array item by item.
pub proof fn lemma_container_views(v: JsonValue)
    ensures
        v matches JsonValue::Object(o) ==> v@ == JsonView::Object(members_view(o@)),
        v matches JsonValue::Array(a) ==> v@ == JsonView::Array(items_view(a@)),
{
    match v {
        JsonValue::Object(o) => {
            assert(json_view(v) matches JsonView::Object(m) && m =~= members_view(o@));
        },
        JsonValue::Array(a) => {
            assert(json_view(v) matches JsonView::Array(m) && m =~= items_view(a@));
        },
        _ => {},
    }
}

/// The value of the first member of `o` named `key`.
pub fn find_member<'b>(o: &'b Vec<(String, JsonValue)>, key: &[char]) -> (r: Option<&'b JsonValue>)
    ensures
        match r {
            Some(v) => lookup(members_view(o@), key@) == Some(v@),
            None => lookup(members_view(o@), key@) is None,
        },
{
    let ghost m = members_view(o@);
    let n: usize = o.len();
    let mut i: usize = 0;
    assert(m.skip(0) =~= m);
    while i < n
        invariant
            n == o@.len(),
            m == members_view(o@),
            i <= n,
            lookup(m, key@) == lookup(m.skip(i as int), key@),
        decreases n - i,
    {
        let name = crate::text::chars_of(o[i].0.as_str());
        assert(m.skip(i as int)[0] == m[i as int]);
        if crate::text::chars_eq(&name, key) {
            return Some(&o[i].1);
        }
        assert(m.skip(i as int).drop_first() =~= m.skip(i + 1));
        i = i + 1;
    }
    None
}

} // verus!
