//! What is read out of JSON text, through `serde_json`.
//!
//! A document is carried as its text. Each function below parses it and looks
//! at one place; a document that is no JSON, or has no such place, gives
//! nothing.

use vstd::prelude::*;
use crate::text::opt_view;

verus! {

/// Why a text is no JSON document, as the parser says it; nothing for one that is.
pub uninterp spec fn json_fault(doc: Seq<char>) -> Option<Seq<char>>;

/// The string member `key` of a document.
pub uninterp spec fn json_text(doc: Seq<char>, key: Seq<char>) -> Option<Seq<char>>;

/// The boolean member `key` of a document.
pub uninterp spec fn json_flag(doc: Seq<char>, key: Seq<char>) -> Option<bool>;

/// The member `key` of a document where it is an integer from 0 to 2^64 - 1.
pub uninterp spec fn json_count(doc: Seq<char>, key: Seq<char>) -> Option<u64>;

/// Whether a document is an object with a member `key`.
pub uninterp spec fn json_has(doc: Seq<char>, key: Seq<char>) -> bool;

/// The string members `a` and `b` of each item of a document that is a list.
pub uninterp spec fn json_pairs(doc: Seq<char>, a: Seq<char>, b: Seq<char>) -> Option<
    Seq<(Option<Seq<char>>, Option<Seq<char>>)>,
>;

/// The members of the object member `key`: their names and, where they are
/// strings, their values.
pub uninterp spec fn json_members(doc: Seq<char>, key: Seq<char>) -> Option<
    Seq<(Seq<char>, Option<Seq<char>>)>,
>;

/// The first item of the list member `key`, where it is a string.
pub uninterp spec fn json_first(doc: Seq<char>, key: Seq<char>) -> Option<Seq<char>>;

/// The string member `b` of the member `a` of a document.
pub uninterp spec fn json_inner(doc: Seq<char>, a: Seq<char>, b: Seq<char>) -> Option<Seq<char>>;

/// The views of a list of pairs.
pub open spec fn pairs_view(v: Seq<(Option<String>, Option<String>)>) -> Seq<
    (Option<Seq<char>>, Option<Seq<char>>),
> {
    Seq::new(v.len(), |i: int| (opt_view(v[i].0), opt_view(v[i].1)))
}

/// The views of a list of members.
pub open spec fn members_view(v: Seq<(String, Option<String>)>) -> Seq<(Seq<char>, Option<Seq<char>>)> {
    Seq::new(v.len(), |i: int| (v[i].0@, opt_view(v[i].1)))
}

/// `serde_json::from_str` on a text: the parser's message where it is no JSON.
/// Claimed is that the message depends on the text alone.
#[verifier::external_body]
pub(crate) fn parse_fault(doc: &str) -> (r: Option<String>)
    ensures
        opt_view(r) == json_fault(doc@),
{
    match serde_json::from_str::<serde_json::Value>(doc) {
        Ok(_) => None,
        Err(e) => Some(e.to_string()),
    }
}

/// `Value::get` and `Value::as_str`. Claimed is that the string depends on the
/// text and the key alone, and that there is one only in a JSON object with that
/// member.
#[verifier::external_body]
pub(crate) fn text_member(doc: &str, key: &str) -> (r: Option<String>)
    ensures
        opt_view(r) == json_text(doc@, key@),
        r is Some ==> json_fault(doc@) is None && json_has(doc@, key@),
{
    let v: serde_json::Value = serde_json::from_str(doc).ok()?;
    v.get(key)?.as_str().map(str::to_string)
}

/// `Value::get` and `Value::as_bool`. Claimed is that the answer depends on
/// the text and the key alone, and that there is one only in a JSON object with
/// that member.
#[verifier::external_body]
pub(crate) fn flag_member(doc: &str, key: &str) -> (r: Option<bool>)
    ensures
        r == json_flag(doc@, key@),
        r is Some ==> json_fault(doc@) is None && json_has(doc@, key@),
{
    let v: serde_json::Value = serde_json::from_str(doc).ok()?;
    v.get(key)?.as_bool()
}

/// `Value::get` and `Value::as_u64`. Claimed is that the number depends on the
/// text and the key alone, and that there is one only in a JSON object with that
/// member.
#[verifier::external_body]
pub(crate) fn count_member(doc: &str, key: &str) -> (r: Option<u64>)
    ensures
        r == json_count(doc@, key@),
        r is Some ==> json_fault(doc@) is None && json_has(doc@, key@),
{
    let v: serde_json::Value = serde_json::from_str(doc).ok()?;
    v.get(key)?.as_u64()
}

/// `Value::get`: whether there is a member. Claimed is that the answer depends
/// on the text and the key alone, and that a text that is no JSON has none.
#[verifier::external_body]
pub(crate) fn has_member(doc: &str, key: &str) -> (r: bool)
    ensures
        r == json_has(doc@, key@),
        r ==> json_fault(doc@) is None,
{
    match serde_json::from_str::<serde_json::Value>(doc) {
        Ok(v) => v.get(key).is_some(),
        Err(_) => false,
    }
}

/// `Value::as_array`, and of each item `Value::get` and `Value::as_str`.
/// Claimed is that the strings depend on the text and the keys alone, and that a
/// text that is no JSON has none.
#[verifier::external_body]
pub(crate) fn item_pairs(doc: &str, a: &str, b: &str) -> (r: Option<
    Vec<(Option<String>, Option<String>)>,
>)
    ensures
        (match r {
            Some(v) => Some(pairs_view(v@)),
            None => None,
        }) == json_pairs(doc@, a@, b@),
        r is Some ==> json_fault(doc@) is None,
{
    let v: serde_json::Value = serde_json::from_str(doc).ok()?;
    let mut out = Vec::new();
    for m in v.as_array()? {
        let x = m.get(a).and_then(serde_json::Value::as_str).map(str::to_string);
        let y = m.get(b).and_then(serde_json::Value::as_str).map(str::to_string);
        out.push((x, y));
    }
    Some(out)
}

/// `Value::get` and `Value::as_object`, and of each member `Value::as_str`.
/// Claimed is that names and strings depend on the text and the key alone, and
/// that there are some only in a JSON object with that member.
#[verifier::external_body]
pub(crate) fn object_members(doc: &str, key: &str) -> (r: Option<Vec<(String, Option<String>)>>)
    ensures
        (match r {
            Some(v) => Some(members_view(v@)),
            None => None,
        }) == json_members(doc@, key@),
        r is Some ==> json_fault(doc@) is None && json_has(doc@, key@),
{
    let v: serde_json::Value = serde_json::from_str(doc).ok()?;
    let mut out = Vec::new();
    for (k, m) in v.get(key)?.as_object()? {
        out.push((k.clone(), m.as_str().map(str::to_string)));
    }
    Some(out)
}

/// `Value::get`, `Value::as_array`, its first item and `Value::as_str`.
/// Claimed is that the string depends on the text and the key alone, and that
/// there is one only in a JSON object with that member.
#[verifier::external_body]
pub(crate) fn first_item(doc: &str, key: &str) -> (r: Option<String>)
    ensures
        opt_view(r) == json_first(doc@, key@),
        r is Some ==> json_fault(doc@) is None && json_has(doc@, key@),
{
    let v: serde_json::Value = serde_json::from_str(doc).ok()?;
    v.get(key)?.as_array()?.first()?.as_str().map(str::to_string)
}

/// `Value::get` twice and `Value::as_str`. Claimed is that the string depends
/// on the text and the keys alone, and that there is one only in a JSON object with
/// the first member.
#[verifier::external_body]
pub(crate) fn inner_text(doc: &str, a: &str, b: &str) -> (r: Option<String>)
    ensures
        opt_view(r) == json_inner(doc@, a@, b@),
        r is Some ==> json_fault(doc@) is None && json_has(doc@, a@),
{
    let v: serde_json::Value = serde_json::from_str(doc).ok()?;
    v.get(a)?.get(b)?.as_str().map(str::to_string)
}

} // verus!
