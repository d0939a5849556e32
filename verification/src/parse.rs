//! Decoding the input document: JSON text is parsed into a value tree by
//! serde_json, and the tree is decoded, shape-checked field by field, into
//! the record types. Any departure from the expected nested shape is a
//! `MalformedInput` error.
//!
//! The tree itself is modelled by the ghost [`JsonV`] mirror: the parse of a
//! text and the mirror of a value are named results of serde_json
//! ([`json_tree_of`], [`json_view`]), and every shape check above them is
//! verified against [`spec_decode_document`].

use vstd::prelude::*;
use crate::model::{FileLogV, RecordV, UpdateV};
use crate::records::{LogRecord, SourceFileLog, Update};

verus! {

/// Why a document was rejected: its text does not hold the expected nested
/// shape (not JSON, a missing field, or a wrong value type).
#[derive(Clone, Copy, Debug, PartialEq, Eq, Structural)]
pub enum ParseError {
    MalformedInput,
}

/// Ghost mirror of a JSON value, as far as the decoder reads one: a string,
/// an array, an object, or anything else (a number, a boolean, null).
pub ghost enum JsonV {
    Str(Seq<char>),
    Arr(Seq<JsonV>),
    Obj(Map<Seq<char>, JsonV>),
    Other,
}

/// What serde_json::from_str::<Value> makes of a text: `None` when the text
/// is rejected, otherwise the mirror of the parsed tree. A function of the
/// text alone.
pub uninterp spec fn json_tree_of(text: Seq<char>) -> Option<JsonV>;

/// The ghost mirror of a serde_json::Value.
pub uninterp spec fn json_view(v: serde_json::Value) -> JsonV;

#[verifier::external_type_specification]
#[verifier::external_body]
pub struct ExJsonValue(serde_json::Value);

#[verifier::external_type_specification]
#[verifier::external_body]
pub struct ExJsonError(serde_json::Error);

/// Relies on serde_json::from_str::<Value>: parses JSON text into a value
/// tree or reports why the text is not JSON, deciding by the text alone.
#[verifier::external_body]
fn json_from_str(text: &str) -> (r: Result<serde_json::Value, serde_json::Error>)
    ensures
        r matches Ok(t) ==> json_tree_of(text@) == Some(json_view(t)),
        r is Err ==> json_tree_of(text@) is None,
{
    serde_json::from_str(text)
}

/// Relies on serde_json::Value::as_array: Some exactly when the value is a
/// JSON array, borrowing its elements in order.
#[verifier::external_body]
fn json_as_array<'a>(v: &'a serde_json::Value) -> (r: Option<&'a Vec<serde_json::Value>>)
    ensures
        r matches Some(a) ==> json_view(*v) == JsonV::Arr(
            a@.map_values(|e: serde_json::Value| json_view(e)),
        ),
        r is None ==> !(json_view(*v) is Arr),
{
    v.as_array()
}

/// Relies on serde_json::Value::as_str: Some exactly when the value is a
/// JSON string, borrowing its text.
#[verifier::external_body]
fn json_as_str<'a>(v: &'a serde_json::Value) -> (r: Option<&'a str>)
    ensures
        r matches Some(s) ==> json_view(*v) == JsonV::Str(s@),
        r is None ==> !(json_view(*v) is Str),
{
    v.as_str()
}

/// The field of an object under a key: `None` when the value is no object or
/// the key is absent.
pub open spec fn spec_obj_field(v: JsonV, key: Seq<char>) -> Option<JsonV> {
    match v {
        JsonV::Obj(m) => if m.contains_key(key) {
            Some(m[key])
        } else {
            None
        },
        _ => None,
    }
}

/// Relies on serde_json::Value::get with a string index: Some exactly when
/// the value is a JSON object holding the key.
#[verifier::external_body]
fn json_get<'a>(v: &'a serde_json::Value, key: &str) -> (r: Option<&'a serde_json::Value>)
    ensures
        r matches Some(f) ==> spec_obj_field(json_view(*v), key@) == Some(json_view(*f)),
        r is None ==> spec_obj_field(json_view(*v), key@) is None,
{
    v.get(key)
}

// ---------------------------------------------------------------------------
// The decoding of the mirror, as spec functions
// ---------------------------------------------------------------------------

/// The string field of an object under a key, if it is a string.
pub open spec fn spec_string_field(v: JsonV, key: Seq<char>) -> Option<Seq<char>> {
    match spec_obj_field(v, key) {
        Some(JsonV::Str(s)) => Some(s),
        _ => None,
    }
}

/// One `{ "key": ..., "value": ... }` object as an update.
pub open spec fn spec_decode_update(v: JsonV) -> Option<UpdateV> {
    match (spec_string_field(v, "key"@), spec_string_field(v, "value"@)) {
        (Some(k), Some(w)) => Some(UpdateV { key: k, value: w }),
        _ => None,
    }
}

/// Whether every element of an array decodes as an update.
pub open spec fn all_updates_decode(elems: Seq<JsonV>) -> bool {
    forall|i: int| 0 <= i < elems.len() ==> (#[trigger] spec_decode_update(elems[i])) is Some
}

/// An array of update objects, decoded in order; `None` if any fails.
pub open spec fn spec_decode_update_seq(elems: Seq<JsonV>) -> Option<Seq<UpdateV>> {
    if all_updates_decode(elems) {
        Some(Seq::new(elems.len(), |i: int| spec_decode_update(elems[i])->Some_0))
    } else {
        None
    }
}

/// The update-list field of a record object under a key.
pub open spec fn spec_decode_update_list(v: JsonV, key: Seq<char>) -> Option<Seq<UpdateV>> {
    match spec_obj_field(v, key) {
        Some(JsonV::Arr(elems)) => spec_decode_update_seq(elems),
        _ => None,
    }
}

/// One record object: its `update-name` and its three update lists.
pub open spec fn spec_decode_record(v: JsonV) -> Option<RecordV> {
    match (
        spec_string_field(v, "update-name"@),
        spec_decode_update_list(v, "old"@),
        spec_decode_update_list(v, "new"@),
        spec_decode_update_list(v, "info"@),
    ) {
        (Some(n), Some(o), Some(w), Some(f)) => Some(
            RecordV { name: n, old: o, new: w, info: f },
        ),
        _ => None,
    }
}

/// Whether every element of an array decodes as a record.
pub open spec fn all_records_decode(elems: Seq<JsonV>) -> bool {
    forall|i: int| 0 <= i < elems.len() ==> (#[trigger] spec_decode_record(elems[i])) is Some
}

/// An array of record objects, decoded in order; `None` if any fails.
pub open spec fn spec_decode_record_seq(elems: Seq<JsonV>) -> Option<Seq<RecordV>> {
    if all_records_decode(elems) {
        Some(Seq::new(elems.len(), |i: int| spec_decode_record(elems[i])->Some_0))
    } else {
        None
    }
}

/// One source-file object: its `file-name` and its `log` record array.
pub open spec fn spec_decode_file_log(v: JsonV) -> Option<FileLogV> {
    match (spec_string_field(v, "file-name"@), spec_obj_field(v, "log"@)) {
        (Some(n), Some(JsonV::Arr(elems))) => match spec_decode_record_seq(elems) {
            Some(logs) => Some(FileLogV { name: n, logs }),
            None => None,
        },
        _ => None,
    }
}

/// Whether every element of an array decodes as a source-file log.
pub open spec fn all_files_decode(elems: Seq<JsonV>) -> bool {
    forall|i: int| 0 <= i < elems.len() ==> (#[trigger] spec_decode_file_log(elems[i])) is Some
}

/// An array of source-file objects, decoded in order; `None` if any fails.
pub open spec fn spec_decode_file_seq(elems: Seq<JsonV>) -> Option<Seq<FileLogV>> {
    if all_files_decode(elems) {
        Some(Seq::new(elems.len(), |i: int| spec_decode_file_log(elems[i])->Some_0))
    } else {
        None
    }
}

/// The whole document: an array of source-file objects, decoded in order.
pub open spec fn spec_decode_document(t: JsonV) -> Option<Seq<FileLogV>> {
    match t {
        JsonV::Arr(elems) => spec_decode_file_seq(elems),
        _ => None,
    }
}

// ---------------------------------------------------------------------------
// The decoder, verified against the spec functions above
// ---------------------------------------------------------------------------

/// A string field of a JSON object, or `MalformedInput` when the field is
/// missing or not a string.
fn parse_string_field(v: &serde_json::Value, key: &str) -> (r: Result<String, ParseError>)
    ensures
        match r {
            Ok(s) => spec_string_field(json_view(*v), key@) == Some(s@),
            Err(e) => spec_string_field(json_view(*v), key@) is None && e
                == ParseError::MalformedInput,
        },
{
    let field = match json_get(v, key) {
        Some(f) => f,
        None => {
            return Err(ParseError::MalformedInput);
        },
    };
    match json_as_str(field) {
        Some(s) => Ok(s.to_owned()),
        None => Err(ParseError::MalformedInput),
    }
}

/// One `{ "key": ..., "value": ... }` object as an Update.
fn parse_update(v: &serde_json::Value) -> (r: Result<Update, ParseError>)
    ensures
        match r {
            Ok(u) => spec_decode_update(json_view(*v)) == Some(u.deep_view()),
            Err(e) => spec_decode_update(json_view(*v)) is None && e
                == ParseError::MalformedInput,
        },
{
    let key = match parse_string_field(v, "key") {
        Ok(k) => k,
        Err(e) => {
            return Err(e);
        },
    };
    let value = match parse_string_field(v, "value") {
        Ok(w) => w,
        Err(e) => {
            return Err(e);
        },
    };
    Ok(Update { key, value })
}

/// An array field of update objects, decoded in order.
fn parse_update_list(v: &serde_json::Value, key: &str) -> (r: Result<Vec<Update>, ParseError>)
    ensures
        match r {
            Ok(us) => spec_decode_update_list(json_view(*v), key@) == Some(us.deep_view()),
            Err(e) => spec_decode_update_list(json_view(*v), key@) is None && e
                == ParseError::MalformedInput,
        },
{
    let field = match json_get(v, key) {
        Some(f) => f,
        None => {
            return Err(ParseError::MalformedInput);
        },
    };
    let arr = match json_as_array(field) {
        Some(a) => a,
        None => {
            return Err(ParseError::MalformedInput);
        },
    };
    let ghost elems = arr@.map_values(|e: serde_json::Value| json_view(e));
    let mut out: Vec<Update> = Vec::new();
    let mut i: usize = 0;
    while i < arr.len()
        invariant
            i <= arr.len(),
            elems == arr@.map_values(|e: serde_json::Value| json_view(e)),
            elems.len() == arr@.len(),
            spec_obj_field(json_view(*v), key@) == Some(JsonV::Arr(elems)),
            forall|j: int| 0 <= j < i ==> (#[trigger] spec_decode_update(elems[j])) is Some,
            out.deep_view().len() == i,
            forall|j: int|
                0 <= j < i ==> #[trigger] out.deep_view()[j] == spec_decode_update(
                    elems[j],
                )->Some_0,
        decreases arr.len() - i,
    {
        match parse_update(&arr[i]) {
            Ok(u) => {
                let ghost pre = out.deep_view();
                out.push(u);
                proof {
                    assert(out.deep_view() =~= pre.push(u.deep_view()));
                }
            },
            Err(e) => {
                proof {
                    assert(!all_updates_decode(elems)) by {
                        assert(spec_decode_update(elems[i as int]) is None);
                    }
                }
                return Err(e);
            },
        }
        i = i + 1;
    }
    proof {
        assert(out.deep_view() =~= Seq::new(
            elems.len(),
            |j: int| spec_decode_update(elems[j])->Some_0,
        ));
    }
    Ok(out)
}

/// One record object: its `update-name` and its `old`, `new` and `info`
/// update lists.
fn parse_record(v: &serde_json::Value) -> (r: Result<LogRecord, ParseError>)
    ensures
        match r {
            Ok(rec) => spec_decode_record(json_view(*v)) == Some(rec.deep_view()),
            Err(e) => spec_decode_record(json_view(*v)) is None && e
                == ParseError::MalformedInput,
        },
{
    let name = match parse_string_field(v, "update-name") {
        Ok(n) => n,
        Err(e) => {
            return Err(e);
        },
    };
    let old = match parse_update_list(v, "old") {
        Ok(u) => u,
        Err(e) => {
            return Err(e);
        },
    };
    let new = match parse_update_list(v, "new") {
        Ok(u) => u,
        Err(e) => {
            return Err(e);
        },
    };
    let info = match parse_update_list(v, "info") {
        Ok(u) => u,
        Err(e) => {
            return Err(e);
        },
    };
    Ok(LogRecord { name, old, new, info })
}

/// One source-file object: its `file-name` and its `log` record list.
fn parse_file_log(v: &serde_json::Value) -> (r: Result<SourceFileLog, ParseError>)
    ensures
        match r {
            Ok(f) => spec_decode_file_log(json_view(*v)) == Some(f.deep_view()),
            Err(e) => spec_decode_file_log(json_view(*v)) is None && e
                == ParseError::MalformedInput,
        },
{
    let name = match parse_string_field(v, "file-name") {
        Ok(n) => n,
        Err(e) => {
            return Err(e);
        },
    };
    let field = match json_get(v, "log") {
        Some(f) => f,
        None => {
            return Err(ParseError::MalformedInput);
        },
    };
    let arr = match json_as_array(field) {
        Some(a) => a,
        None => {
            return Err(ParseError::MalformedInput);
        },
    };
    let ghost elems = arr@.map_values(|e: serde_json::Value| json_view(e));
    let mut logs: Vec<LogRecord> = Vec::new();
    let mut i: usize = 0;
    while i < arr.len()
        invariant
            i <= arr.len(),
            elems == arr@.map_values(|e: serde_json::Value| json_view(e)),
            elems.len() == arr@.len(),
            spec_string_field(json_view(*v), "file-name"@) == Some(name@),
            spec_obj_field(json_view(*v), "log"@) == Some(JsonV::Arr(elems)),
            forall|j: int| 0 <= j < i ==> (#[trigger] spec_decode_record(elems[j])) is Some,
            logs.deep_view().len() == i,
            forall|j: int|
                0 <= j < i ==> #[trigger] logs.deep_view()[j] == spec_decode_record(
                    elems[j],
                )->Some_0,
        decreases arr.len() - i,
    {
        match parse_record(&arr[i]) {
            Ok(rec) => {
                let ghost pre = logs.deep_view();
                logs.push(rec);
                proof {
                    assert(logs.deep_view() =~= pre.push(rec.deep_view()));
                }
            },
            Err(e) => {
                proof {
                    assert(!all_records_decode(elems)) by {
                        assert(spec_decode_record(elems[i as int]) is None);
                    }
                }
                return Err(e);
            },
        }
        i = i + 1;
    }
    proof {
        assert(logs.deep_view() =~= Seq::new(
            elems.len(),
            |j: int| spec_decode_record(elems[j])->Some_0,
        ));
    }
    Ok(SourceFileLog { name, logs })
}

/// The whole document: JSON text whose top level is an array of source-file
/// objects. Returns the decoded document exactly when serde_json accepts the
/// text and the tree decodes, and `MalformedInput` otherwise.
pub fn parse_document(text: &str) -> (r: Result<Vec<SourceFileLog>, ParseError>)
    ensures
        match json_tree_of(text@) {
            Some(t) => match spec_decode_document(t) {
                Some(doc) => r matches Ok(files) && files.deep_view() == doc,
                None => r matches Err(e) && e == ParseError::MalformedInput,
            },
            None => r matches Err(e) && e == ParseError::MalformedInput,
        },
{
    let tree = match json_from_str(text) {
        Ok(t) => t,
        Err(_) => {
            return Err(ParseError::MalformedInput);
        },
    };
    let arr = match json_as_array(&tree) {
        Some(a) => a,
        None => {
            return Err(ParseError::MalformedInput);
        },
    };
    let ghost elems = arr@.map_values(|e: serde_json::Value| json_view(e));
    let mut files: Vec<SourceFileLog> = Vec::new();
    let mut i: usize = 0;
    while i < arr.len()
        invariant
            i <= arr.len(),
            elems == arr@.map_values(|e: serde_json::Value| json_view(e)),
            elems.len() == arr@.len(),
            json_tree_of(text@) == Some(JsonV::Arr(elems)),
            forall|j: int| 0 <= j < i ==> (#[trigger] spec_decode_file_log(elems[j])) is Some,
            files.deep_view().len() == i,
            forall|j: int|
                0 <= j < i ==> #[trigger] files.deep_view()[j] == spec_decode_file_log(
                    elems[j],
                )->Some_0,
        decreases arr.len() - i,
    {
        match parse_file_log(&arr[i]) {
            Ok(f) => {
                let ghost pre = files.deep_view();
                files.push(f);
                proof {
                    assert(files.deep_view() =~= pre.push(f.deep_view()));
                }
            },
            Err(e) => {
                proof {
                    assert(!all_files_decode(elems)) by {
                        assert(spec_decode_file_log(elems[i as int]) is None);
                    }
                }
                return Err(e);
            },
        }
        i = i + 1;
    }
    proof {
        assert(files.deep_view() =~= Seq::new(
            elems.len(),
            |j: int| spec_decode_file_log(elems[j])->Some_0,
        ));
    }
    Ok(files)
}

} // verus!
