//! Reading JSON, one step at a time.
//!
//! A JSON value is kept as the text it was written in. What is missing reads as
//! `null`, so a path through a document never fails half way.

use std::collections::BTreeMap;

use vstd::prelude::*;
use vstd::string::*;

use crate::text;
use crate::text::same;

verus! {

// ------------------------------------------------------------ outside calls

/// Why `serde_json::from_str` refuses a text as a `serde_json::Value`; nothing
/// when it does not.
pub uninterp spec fn json_fault(s: Seq<char>) -> Option<Seq<char>>;

/// `serde_json::from_str::<serde_json::Value>`: its words for why `text` is no
/// JSON document. The text alone decides it.
#[verifier::external_body]
pub(crate) fn fault(text: &str) -> (r: Option<String>)
    ensures
        text::opt_view(r) == json_fault(text@),
{
    serde_json::from_str::<serde_json::Value>(text).err().map(|e| e.to_string())
}

/// The text of the value that a JSON object has under `key`; nothing when the
/// text is no object or has no such key.
pub uninterp spec fn json_member(s: Seq<char>, key: Seq<char>) -> Option<Seq<char>>;

/// `serde_json::from_str` of an object into `serde_json::value::RawValue`s: the
/// text of the value under `key`. Of a key that is written twice the last counts.
#[verifier::external_body]
fn member(text: &str, key: &str) -> (r: Option<String>)
    ensures
        text::opt_view(r) == json_member(text@, key@),
{
    serde_json::from_str::<BTreeMap<String, Box<serde_json::value::RawValue>>>(text)
        .ok()
        .and_then(|map| map.get(key).map(|value| value.get().to_string()))
}

/// The texts of the values in a JSON array; nothing when the text is no array.
pub uninterp spec fn json_items(s: Seq<char>) -> Option<Seq<Seq<char>>>;

/// `serde_json::from_str` of an array into `serde_json::value::RawValue`s: the
/// texts of its values, in order.
#[verifier::external_body]
pub(crate) fn items(text: &str) -> (r: Option<Vec<String>>)
    ensures
        match r {
            Some(list) => json_items(text@) == Some(text::views(list@)),
            None => json_items(text@) is None,
        },
{
    serde_json::from_str::<Vec<Box<serde_json::value::RawValue>>>(text)
        .ok()
        .map(|list| list.iter().map(|value| value.get().to_string()).collect())
}

/// The text that a JSON string stands for; nothing when the value is no string.
pub uninterp spec fn json_text(s: Seq<char>) -> Option<Seq<char>>;

/// `serde_json::from_str::<String>`: the text a JSON string stands for.
#[verifier::external_body]
pub(crate) fn as_text(text: &str) -> (r: Option<String>)
    ensures
        text::opt_view(r) == json_text(text@),
{
    serde_json::from_str::<String>(text).ok()
}

/// The number that a JSON value is, as `serde_json::Value::as_u64` has it.
pub uninterp spec fn json_unsigned(s: Seq<char>) -> Option<u64>;

/// `serde_json::from_str::<serde_json::Value>` and `Value::as_u64`: the value
/// as a whole number that is not negative, if it is one.
#[verifier::external_body]
pub(crate) fn as_unsigned(text: &str) -> (r: Option<u64>)
    ensures
        r == json_unsigned(text@),
{
    serde_json::from_str::<serde_json::Value>(text).ok().and_then(|value| value.as_u64())
}

/// The truth value that a JSON value is; nothing when it is none.
pub uninterp spec fn json_bool(s: Seq<char>) -> Option<bool>;

/// `serde_json::from_str::<bool>`: the truth value a JSON value is.
#[verifier::external_body]
pub(crate) fn as_bool(text: &str) -> (r: Option<bool>)
    ensures
        r == json_bool(text@),
{
    serde_json::from_str::<bool>(text).ok()
}

// -------------------------------------------------------------- navigation

/// The value under `key`, or `null`.
pub open spec fn at(s: Seq<char>, key: Seq<char>) -> Seq<char> {
    match json_member(s, key) {
        Some(value) => value,
        None => "null"@,
    }
}

pub open spec fn is_null(s: Seq<char>) -> bool {
    s == "null"@
}

/// The text under `key`, if it is one.
pub open spec fn text_at(s: Seq<char>, key: Seq<char>) -> Option<Seq<char>> {
    json_text(at(s, key))
}

/// `value`, or `other` in its absence.
pub open spec fn or_text(value: Option<Seq<char>>, other: Seq<char>) -> Seq<char> {
    match value {
        Some(t) => t,
        None => other,
    }
}

/// The texts in an array, without what is no text; nothing when it is no array.
pub open spec fn texts_in(items: Seq<Seq<char>>) -> Seq<Seq<char>>
    decreases items.len(),
{
    if items.len() == 0 {
        Seq::empty()
    } else {
        match json_text(items.last()) {
            Some(t) => texts_in(items.drop_last()).push(t),
            None => texts_in(items.drop_last()),
        }
    }
}

pub open spec fn texts_of(s: Seq<char>) -> Seq<Seq<char>> {
    match json_items(s) {
        Some(list) => texts_in(list),
        None => Seq::empty(),
    }
}

/// The value under `key`, or `null`.
pub fn get(text: &str, key: &str) -> (r: String)
    ensures
        r@ == at(text@, key@),
{
    match member(text, key) {
        Some(value) => value,
        None => "null".to_string(),
    }
}

pub fn null(text: &str) -> (r: bool)
    ensures
        r == is_null(text@),
{
    same(text, "null")
}

/// The text under `key`, if it is one.
pub fn get_text(text: &str, key: &str) -> (r: Option<String>)
    ensures
        text::opt_view(r) == text_at(text@, key@),
{
    let value = get(text, key);
    as_text(value.as_str())
}

/// `value`, or `other` in its absence.
pub fn or_else(value: Option<String>, other: &str) -> (r: String)
    ensures
        r@ == or_text(text::opt_view(value), other@),
{
    match value {
        Some(t) => t,
        None => other.to_string(),
    }
}

/// The texts in an array.
pub fn strings(text: &str) -> (r: Vec<String>)
    ensures
        text::views(r@) == texts_of(text@),
{
    let mut out: Vec<String> = Vec::new();
    assert(text::views(out@) =~= Seq::<Seq<char>>::empty());
    if let Some(list) = items(text) {
        let ghost all = text::views(list@);
        let mut i: usize = 0;
        assert(all.take(0) =~= Seq::<Seq<char>>::empty());
        while i < list.len()
            invariant
                i <= list@.len(),
                all == text::views(list@),
                text::views(out@) == texts_in(all.take(i as int)),
            decreases list.len() - i,
        {
            assert(all.take(i + 1).drop_last() =~= all.take(i as int));
            assert(all.take(i + 1).last() == list@[i as int]@);
            if let Some(t) = as_text(list[i].as_str()) {
                let ghost was = text::views(out@);
                out.push(t);
                assert(text::views(out@) =~= was.push(t@));
            }
            i += 1;
        }
        assert(all.take(i as int) =~= all);
    }
    out
}

} // verus!
