//! JSON documents as `serde_json` holds them.

use vstd::prelude::*;

verus! {

/// `serde_json::Value`, a JSON document.
#[verifier::external_type_specification]
#[verifier::external_body]
pub struct ExValue(serde_json::Value);

/// What a JSON document holds. A number is held as the natural number of 64 bits that it
/// is, where it is one.
pub enum Json {
    Null,
    Bool(bool),
    Number(Option<u64>),
    Text(Seq<char>),
    Array(Seq<Json>),
    Object(Map<Seq<char>, Json>),
}

/// What a `serde_json::Value` holds.
pub uninterp spec fn json_of(value: serde_json::Value) -> Json;

/// The member `key` of an object; nothing where it is no object or has no such member.
pub open spec fn member(j: Json, key: Seq<char>) -> Option<Json> {
    match j {
        Json::Object(members) => if members.contains_key(key) {
            Some(members[key])
        } else {
            None
        },
        _ => None,
    }
}

/// The member `inner` of the member `outer`.
pub open spec fn member_of_member(j: Json, outer: Seq<char>, inner: Seq<char>) -> Option<Json> {
    match member(j, outer) {
        Some(m) => member(m, inner),
        None => None,
    }
}

/// `serde_json::Value::get` with a text as its argument: the member of that name where
/// the value is an object that has it, and nothing otherwise.
#[verifier::external_body]
pub(crate) fn get<'a>(value: &'a serde_json::Value, key: &str) -> (r: Option<&'a serde_json::Value>)
    ensures
        match r {
            Some(v) => member(json_of(*value), key@) == Some(json_of(*v)),
            None => member(json_of(*value), key@) is None,
        },
{
    value.get(key)
}

/// `serde_json::Value::as_str`: the text where the value is one, and nothing otherwise.
#[verifier::external_body]
pub(crate) fn as_text<'a>(value: &'a serde_json::Value) -> (r: Option<&'a str>)
    ensures
        match r {
            Some(s) => json_of(*value) == Json::Text(s@),
            None => !(json_of(*value) is Text),
        },
{
    value.as_str()
}

/// `serde_json::Value::as_u64`: the number where the value is a natural number of 64
/// bits, and nothing otherwise.
#[verifier::external_body]
pub(crate) fn as_natural(value: &serde_json::Value) -> (r: Option<u64>)
    ensures
        r == (match json_of(*value) {
            Json::Number(n) => n,
            _ => None,
        }),
{
    value.as_u64()
}

/// What `serde_json::from_slice` reads from some bytes as a JSON document; nothing where
/// they are none.
pub uninterp spec fn parsed_json(bytes: Seq<u8>) -> Option<Json>;

/// `serde_json::from_slice::<serde_json::Value>`. Whether the bytes are a document, and
/// which, is a function of the bytes.
#[verifier::external_body]
pub(crate) fn parse(bytes: &[u8]) -> (r: Option<serde_json::Value>)
    ensures
        match r {
            Some(v) => parsed_json(bytes@) == Some(json_of(v)),
            None => parsed_json(bytes@) is None,
        },
{
    serde_json::from_slice(bytes).ok()
}

/// `serde_json::Value::as_array`: the items where the value is an array, and nothing
/// otherwise.
#[verifier::external_body]
pub(crate) fn as_items<'a>(value: &'a serde_json::Value) -> (r: Option<&'a Vec<serde_json::Value>>)
    ensures
        match r {
            Some(items) => json_of(*value) == Json::Array(
                items@.map_values(|v: serde_json::Value| json_of(v)),
            ),
            None => !(json_of(*value) is Array),
        },
{
    value.as_array()
}

/// The text of a member, or `default` where it is no text.
pub open spec fn text_member(j: Option<Json>, key: Seq<char>, default: Seq<char>) -> Seq<char> {
    match j {
        Some(doc) => match member(doc, key) {
            Some(Json::Text(s)) => s,
            _ => default,
        },
        None => default,
    }
}

/// The natural number of a member, or 0 where it is none.
pub open spec fn natural_member(j: Option<Json>, key: Seq<char>) -> u64 {
    match j {
        Some(doc) => match member(doc, key) {
            Some(Json::Number(Some(n))) => n,
            _ => 0,
        },
        None => 0,
    }
}

pub open spec fn optional_json(value: Option<serde_json::Value>) -> Option<Json> {
    match value {
        Some(v) => Some(json_of(v)),
        None => None,
    }
}

/// The text of a member, or `default` where it is no text.
pub fn text_or(doc: &Option<serde_json::Value>, key: &str, default: &str) -> (r: String)
    ensures
        r@ == text_member(optional_json(*doc), key@, default@),
{
    match doc {
        Some(v) => match get(v, key) {
            Some(m) => match as_text(m) {
                Some(s) => s.to_owned(),
                None => default.to_owned(),
            },
            None => default.to_owned(),
        },
        None => default.to_owned(),
    }
}

/// The natural number of a member, or 0 where it is none.
pub fn natural_or_zero(doc: &Option<serde_json::Value>, key: &str) -> (r: u64)
    ensures
        r == natural_member(optional_json(*doc), key@),
{
    match doc {
        Some(v) => match get(v, key) {
            Some(m) => match as_natural(m) {
                Some(n) => n,
                None => 0,
            },
            None => 0,
        },
        None => 0,
    }
}

/// The texts among the items.
pub open spec fn texts(items: Seq<Json>) -> Seq<Seq<char>>
    decreases items.len(),
{
    if items.len() == 0 {
        Seq::empty()
    } else {
        match items.last() {
            Json::Text(s) => texts(items.drop_last()).push(s),
            _ => texts(items.drop_last()),
        }
    }
}

/// The first two texts of an item that is an array with texts in its first two places.
pub open spec fn text_pair(item: Json) -> Option<(Seq<char>, Seq<char>)> {
    match item {
        Json::Array(parts) => if parts.len() >= 2 && parts[0] is Text && parts[1] is Text {
            Some((parts[0]->Text_0, parts[1]->Text_0))
        } else {
            None
        },
        _ => None,
    }
}

/// The pairs of texts among the items.
pub open spec fn text_pairs(items: Seq<Json>) -> Seq<(Seq<char>, Seq<char>)>
    decreases items.len(),
{
    if items.len() == 0 {
        Seq::empty()
    } else {
        match text_pair(items.last()) {
            Some(p) => text_pairs(items.drop_last()).push(p),
            None => text_pairs(items.drop_last()),
        }
    }
}

/// The items of a member that is an array, none where it is none.
pub open spec fn items_of(doc: Json, key: Seq<char>) -> Seq<Json> {
    match member(doc, key) {
        Some(Json::Array(items)) => items,
        _ => Seq::empty(),
    }
}

/// The texts of a member that is an array.
pub fn member_texts(doc: &serde_json::Value, key: &str) -> (r: Vec<String>)
    ensures
        crate::text::views(r@) == texts(items_of(json_of(*doc), key@)),
{
    let mut r: Vec<String> = Vec::new();
    assert(crate::text::views(r@) =~= Seq::<Seq<char>>::empty());
    let items = match get(doc, key) {
        Some(m) => match as_items(m) {
            Some(items) => items,
            None => {
                return r;
            },
        },
        None => {
            return r;
        },
    };
    let ghost all = items@.map_values(|v: serde_json::Value| json_of(v));
    let mut i: usize = 0;
    assert(all.take(0) =~= Seq::<Json>::empty());
    while i < items.len()
        invariant
            i <= items@.len(),
            all == items@.map_values(|v: serde_json::Value| json_of(v)),
            crate::text::views(r@) == texts(all.take(i as int)),
        decreases items@.len() - i,
    {
        assert(all.take(i + 1).drop_last() =~= all.take(i as int));
        assert(all.take(i + 1).last() == json_of(items@[i as int]));
        match as_text(&items[i]) {
            Some(s) => {
                let ghost was = r@;
                r.push(s.to_owned());
                assert(crate::text::views(r@) =~= crate::text::views(was).push(s@));
            },
            None => {},
        }
        i += 1;
    }
    assert(all.take(i as int) =~= all);
    r
}

/// The first two texts of an item that is an array with texts in its first two places.
fn item_pair(item: &serde_json::Value) -> (r: Option<(String, String)>)
    ensures
        match r {
            Some(p) => text_pair(json_of(*item)) == Some((p.0@, p.1@)),
            None => text_pair(json_of(*item)) is None,
        },
{
    let parts = match as_items(item) {
        Some(parts) => parts,
        None => {
            return None;
        },
    };
    if parts.len() < 2 {
        return None;
    }
    match (as_text(&parts[0]), as_text(&parts[1])) {
        (Some(a), Some(b)) => Some((a.to_owned(), b.to_owned())),
        _ => None,
    }
}

/// The pairs of texts of a member that is an array.
pub fn member_pairs(doc: &serde_json::Value, key: &str) -> (r: Vec<(String, String)>)
    ensures
        crate::text::pair_views(r@) == text_pairs(items_of(json_of(*doc), key@)),
{
    let mut r: Vec<(String, String)> = Vec::new();
    assert(crate::text::pair_views(r@) =~= Seq::<(Seq<char>, Seq<char>)>::empty());
    let items = match get(doc, key) {
        Some(m) => match as_items(m) {
            Some(items) => items,
            None => {
                return r;
            },
        },
        None => {
            return r;
        },
    };
    let ghost all = items@.map_values(|v: serde_json::Value| json_of(v));
    let mut i: usize = 0;
    assert(all.take(0) =~= Seq::<Json>::empty());
    while i < items.len()
        invariant
            i <= items@.len(),
            all == items@.map_values(|v: serde_json::Value| json_of(v)),
            crate::text::pair_views(r@) == text_pairs(all.take(i as int)),
        decreases items@.len() - i,
    {
        assert(all.take(i + 1).drop_last() =~= all.take(i as int));
        assert(all.take(i + 1).last() == json_of(items@[i as int]));
        match item_pair(&items[i]) {
            Some(p) => {
                let ghost was = r@;
                r.push(p);
                assert(crate::text::pair_views(r@) =~= crate::text::pair_views(was).push(
                    (p.0@, p.1@),
                ));
            },
            None => {},
        }
        i += 1;
    }
    assert(all.take(i as int) =~= all);
    r
}

} // verus!
