//! Reading the JSON that `tsh` prints: how long a list is, and which text
//! stands at a place in the document.

use crate::error::ThError;
use crate::number::{decimal_chars, decimal_digits};
use crate::text::{append_chars, append_str, chars_of, string_of};
use vstd::prelude::*;

verus! {

/// What `serde_json` finds at a pointer into a document: nothing at all
/// where the text is no JSON; else the text that stands at the pointer, if a
/// text stands there, and the length of the list that stands there, if a
/// list does.
pub uninterp spec fn json_at(text: Seq<char>, pointer: Seq<char>) -> Option<
    (Option<Seq<char>>, Option<nat>),
>;

/// The length of the list at a pointer into a document: nothing at all
/// where the text is no JSON, nothing where no list stands at the pointer.
pub open spec fn json_list_len(text: Seq<char>, pointer: Seq<char>) -> Option<Option<nat>> {
    match json_at(text, pointer) {
        None => None,
        Some(found) => Some(found.1),
    }
}

/// The text at a pointer into a document, or nothing where the document is
/// no JSON or no text stands at the pointer.
pub open spec fn json_text(text: Seq<char>, pointer: Seq<char>) -> Option<Seq<char>> {
    match json_at(text, pointer) {
        None => None,
        Some(found) => found.0,
    }
}

/// The error of `serde_json`.
#[verifier::external_type_specification]
#[verifier::external_body]
pub struct ExJsonError(serde_json::Error);

/// Parses `text` with `serde_json::from_str` and looks up `pointer` with
/// `Value::pointer`; of what stands there, a text is handed out as it is
/// and a list by its length.
///
/// Trusted: the answer depends on the text and the pointer alone, and is an
/// error exactly where the text is no JSON. Nothing is claimed of which
/// texts parse or what stands where.
#[verifier::external_body]
fn look_up(text: &str, pointer: &str) -> (found: Result<
    (Option<String>, Option<usize>),
    serde_json::Error,
>)
    ensures
        match found {
            Err(_) => json_at(text@, pointer@) is None,
            Ok((t, n)) => json_at(text@, pointer@) == Some(
                (
                    match t {
                        Some(s) => Some(s@),
                        None => None,
                    },
                    match n {
                        Some(len) => Some(len as nat),
                        None => None,
                    },
                ),
            ),
        },
{
    match serde_json::from_str::<serde_json::Value>(text) {
        Err(e) => Err(e),
        Ok(document) => Ok(
            match document.pointer(pointer) {
                Some(serde_json::Value::String(s)) => (Some(s.clone()), None),
                Some(serde_json::Value::Array(list)) => (None, Some(list.len())),
                _ => (None, None),
            },
        ),
    }
}

/// The message of an error of `serde_json`, as its `Display` gives it.
#[verifier::external_body]
fn error_message(error: &serde_json::Error) -> (message: String) {
    error.to_string()
}

/// The pointer to what stands at `path` below entry `index` of the list at
/// `list`.
pub open spec fn entry_pointer(list: Seq<char>, index: nat, path: Seq<char>) -> Seq<char> {
    list + seq!['/'] + decimal_digits(index) + path
}

/// The pointer to what stands at `path` below entry `index` of the list at
/// `list`.
pub fn pointer_to_entry(list: &str, index: usize, path: &str) -> (pointer: String)
    ensures
        pointer@ == entry_pointer(list@, index as nat, path@),
{
    let mut out = chars_of(list);
    out.push('/');
    let digits = decimal_chars(index as u64);
    append_chars(&mut out, &digits);
    append_str(&mut out, path);
    assert(out@ =~= entry_pointer(list@, index as nat, path@));
    string_of(&out)
}

/// The length of the list at `pointer` in the document `text`: an error
/// where the text is no JSON, nothing where no list stands at the pointer.
pub fn list_len(text: &str, pointer: &str) -> (found: Result<Option<usize>, ThError>)
    ensures
        match found {
            Err(e) => json_list_len(text@, pointer@) is None && e is Json,
            Ok(None) => json_list_len(text@, pointer@) == Some(None::<nat>),
            Ok(Some(n)) => json_list_len(text@, pointer@) == Some(Some(n as nat)),
        },
{
    match look_up(text, pointer) {
        Ok(found) => Ok(found.1),
        Err(e) => Err(ThError::Json(error_message(&e))),
    }
}

/// The text at `path` below entry `index` of the list at `list` in the
/// document `text`.
pub fn entry_text(text: &str, list: &str, index: usize, path: &str) -> (found: Option<String>)
    ensures
        match found {
            Some(s) => json_text(text@, entry_pointer(list@, index as nat, path@)) == Some(s@),
            None => json_text(text@, entry_pointer(list@, index as nat, path@)) is None,
        },
{
    let pointer = pointer_to_entry(list, index, path);
    match look_up(text, pointer.as_str()) {
        Ok(found) => found.0,
        Err(_) => None,
    }
}

} // verus!
