//! Trusted boundary to serde_json: deciding whether a text is a well-formed
//! JSON document and rewriting it in canonical (compact) form.
//!
//! The merge engine never looks inside a document; it only needs to know
//! that a text parses, and to hold the one canonical text that parsing and
//! re-serializing it produces.

use vstd::prelude::*;

verus! {

/// Whether the text is a well-formed JSON document, as serde_json accepts it.
pub uninterp spec fn json_wf(s: Seq<char>) -> bool;

/// The canonical text of the JSON document `s`: the compact serialization of
/// the value that `s` parses to. Meaningful only where `json_wf(s)` holds.
pub uninterp spec fn json_norm(s: Seq<char>) -> Seq<char>;

/// Relies on serde_json::from_str to decide whether `s` is a well-formed
/// JSON document, and on serde_json::to_string to write the parsed value
/// back out; each result is a function of the text alone. serde_json
/// documents that serializing fails only for a failing `Serialize` impl or
/// a map with non-string keys, neither of which a `Value` can hold, so a
/// text that parses always yields a canonical form.
#[verifier::external_body]
pub(crate) fn normalize_json(s: &str) -> (r: Option<String>)
    ensures
        r is Some <==> json_wf(s@),
        r matches Some(t) ==> t@ == json_norm(s@),
{
    match serde_json::from_str::<serde_json::Value>(s) {
        Ok(v) => match serde_json::to_string(&v) {
            Ok(t) => Some(t),
            Err(_) => None,
        },
        Err(_) => None,
    }
}

} // verus!
