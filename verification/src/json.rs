//! Reading the members of a JSON document.

use vstd::prelude::*;

verus! {

/// What a JSON document holds under one key.
#[derive(Debug)]
pub enum JsonMember {
    /// The text is no JSON document, or the document is no object.
    Malformed,
    /// The object has no such key.
    Absent,
    /// The key holds `null`.
    Null,
    /// The key holds this string.
    Text(String),
    /// The key holds a value that is neither `null` nor a string.
    Other,
}

/// The value that a member stands for.
pub enum JsonMemberView {
    Malformed,
    Absent,
    Null,
    Text(Seq<char>),
    Other,
}

impl View for JsonMember {
    type V = JsonMemberView;

    open spec fn view(&self) -> JsonMemberView {
        match self {
            JsonMember::Malformed => JsonMemberView::Malformed,
            JsonMember::Absent => JsonMemberView::Absent,
            JsonMember::Null => JsonMemberView::Null,
            JsonMember::Text(s) => JsonMemberView::Text(s@),
            JsonMember::Other => JsonMemberView::Other,
        }
    }
}

/// What the JSON document `doc` holds under `key`.
///
/// This is what `serde_json` makes of the document; the library reasons
/// about it only through this name.
pub uninterp spec fn json_member(doc: Seq<char>, key: Seq<char>) -> JsonMemberView;

/// `serde_json::from_str` reads `doc` as a `serde_json::Value`; where that is
/// an object, `serde_json::Map::get` looks up `key` in it and the member is
/// handed out by kind. Nothing is proved of the outcome but that it depends
/// on `doc` and `key` alone.
#[verifier::external_body]
pub(crate) fn read_member(doc: &str, key: &str) -> (m: JsonMember)
    ensures
        m@ == json_member(doc@, key@),
{
    match serde_json::from_str::<serde_json::Value>(doc) {
        Ok(serde_json::Value::Object(map)) => match map.get(key) {
            None => JsonMember::Absent,
            Some(serde_json::Value::Null) => JsonMember::Null,
            Some(serde_json::Value::String(s)) => JsonMember::Text(s.clone()),
            Some(_) => JsonMember::Other,
        },
        _ => JsonMember::Malformed,
    }
}

/// The compact JSON text of what the JSON document `doc` holds under
/// `key`; none where `doc` is no JSON object or holds nothing under `key`.
///
/// This is what `serde_json` writes for the member; the library reasons
/// about it only through this name.
pub uninterp spec fn json_member_text(doc: Seq<char>, key: Seq<char>) -> Option<Seq<char>>;

/// The `Display` of `serde_json::Value` writes the member that `doc` holds
/// under `key` as compact JSON, once `serde_json::from_str` has read `doc`
/// and `serde_json::Map::get` has found the member. Nothing is proved of
/// the outcome but that it depends on `doc` and `key` alone.
#[verifier::external_body]
pub(crate) fn read_member_text(doc: &str, key: &str) -> (r: Option<String>)
    ensures
        opt_view(r) == json_member_text(doc@, key@),
{
    match serde_json::from_str::<serde_json::Value>(doc) {
        Ok(serde_json::Value::Object(map)) => map.get(key).map(|v| v.to_string()),
        _ => None,
    }
}

/// The string that a required member must hold.
pub open spec fn required_text(m: JsonMemberView) -> Option<Seq<char>> {
    match m {
        JsonMemberView::Text(s) => Some(s),
        _ => None,
    }
}

/// The string that an optional member may hold: none where the member is
/// absent or `null`; a member of another kind is an error.
pub open spec fn optional_text(m: JsonMemberView) -> Result<Option<Seq<char>>, ()> {
    match m {
        JsonMemberView::Text(s) => Ok(Some(s)),
        JsonMemberView::Absent => Ok(None),
        JsonMemberView::Null => Ok(None),
        _ => Err(()),
    }
}

/// The JSON text of an optional member of any kind: none where the
/// member is absent or `null`; a document that cannot be read is an error.
pub open spec fn optional_json(doc: Seq<char>, key: Seq<char>) -> Result<Option<Seq<char>>, ()> {
    match json_member(doc, key) {
        JsonMemberView::Malformed => Err(()),
        JsonMemberView::Absent => Ok(None),
        JsonMemberView::Null => Ok(None),
        _ => Ok(json_member_text(doc, key)),
    }
}

/// The views of an optional string.
pub open spec fn opt_view(o: Option<String>) -> Option<Seq<char>> {
    match o {
        Some(s) => Some(s@),
        None => None,
    }
}

/// The views of an optional string slice.
pub open spec fn opt_str_view(o: Option<&str>) -> Option<Seq<char>> {
    match o {
        Some(s) => Some(s@),
        None => None,
    }
}

/// The string of a member that must be a string.
pub fn as_required(m: JsonMember) -> (r: Option<String>)
    ensures
        opt_view(r) == required_text(m@),
{
    match m {
        JsonMember::Text(s) => Some(s),
        _ => None,
    }
}

/// The string of a member that may be missing and must otherwise be a
/// string.
pub fn as_optional(m: JsonMember) -> (r: Result<Option<String>, ()>)
    ensures
        match r {
            Ok(o) => optional_text(m@) == Ok::<Option<Seq<char>>, ()>(opt_view(o)),
            Err(_) => optional_text(m@) is Err,
        },
{
    match m {
        JsonMember::Text(s) => Ok(Some(s)),
        JsonMember::Absent => Ok(None),
        JsonMember::Null => Ok(None),
        _ => Err(()),
    }
}

/// Reads a member that must be a string.
pub fn read_required(doc: &str, key: &str) -> (r: Option<String>)
    ensures
        opt_view(r) == required_text(json_member(doc@, key@)),
{
    as_required(read_member(doc, key))
}

/// Reads a member that may be missing and must otherwise be a string.
pub fn read_optional(doc: &str, key: &str) -> (r: Result<Option<String>, ()>)
    ensures
        match r {
            Ok(o) => optional_text(json_member(doc@, key@)) == Ok::<Option<Seq<char>>, ()>(
                opt_view(o),
            ),
            Err(_) => optional_text(json_member(doc@, key@)) is Err,
        },
{
    as_optional(read_member(doc, key))
}

/// Reads an optional member of any kind as JSON text.
pub fn read_json(doc: &str, key: &str) -> (r: Result<Option<String>, ()>)
    ensures
        match r {
            Ok(o) => optional_json(doc@, key@) == Ok::<Option<Seq<char>>, ()>(opt_view(o)),
            Err(_) => optional_json(doc@, key@) is Err,
        },
{
    match read_member(doc, key) {
        JsonMember::Malformed => Err(()),
        JsonMember::Absent => Ok(None),
        JsonMember::Null => Ok(None),
        _ => Ok(read_member_text(doc, key)),
    }
}

} // verus!
