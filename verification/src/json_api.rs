//! Trusted declarations for the JSON machinery: parsing a definition file
//! (`serde_json`) and reading the documentation at a structured path inside
//! the parsed document (`access_json` plus the value accessors).
//!
//! Two names pin the content.  [`doc_in`] records what the anchored query
//! and the shape read yield on a parsed document — a function of the
//! document value and the path.  [`doc_of`] records the same over the
//! definition text itself; [`parse_json`] ties the two together, so the
//! resolver's contracts can speak of the text alone.

use vstd::prelude::*;

use access_json::JSONQuery;
use serde_json::Value;

use crate::keybinding::KeybindingDoc;
use crate::keybinding::KeybindingDocView;

verus! {

#[verifier::external_type_specification]
#[verifier::external_body]
pub struct ExValue(Value);

/// Whether this text is a well-formed JSON document: exactly the inputs on
/// which `serde_json::from_str` succeeds.  The parser's acceptance depends
/// on the text alone.
pub uninterp spec fn json_well_formed(s: Seq<char>) -> bool;

/// The documentation a definition text yields at a structured path: what
/// parsing the text, running the anchored query, and reading the
/// documentation shape produce.  A function of the text and the path
/// alone; [`parse_json`] ties it to [`doc_in`] on the parsed document.
pub uninterp spec fn doc_of(text: Seq<char>, path: Seq<char>) -> Option<KeybindingDocView>;

/// The documentation a parsed document yields at a structured path: what
/// the query and the shape read produce on this document value.  The
/// document stays opaque, so the name's first argument is the declared
/// document type itself; [`query_doc`] applies it.
pub uninterp spec fn doc_in(v: Value, path: Seq<char>) -> Option<KeybindingDocView>;

/// Relies on `serde_json::from_str`: parses the text as one JSON document;
/// success depends on the text alone, and every query on the parsed
/// document reads the text's content, which ties [`doc_in`] on the result
/// to [`doc_of`] on the text.
#[verifier::external_body]
pub(crate) fn parse_json(s: &str) -> (r: Option<Value>)
    ensures
        r is Some <==> json_well_formed(s@),
        r matches Some(v) ==> forall|p: Seq<char>| #[trigger] doc_in(v, p) == doc_of(s@, p),
{
    match serde_json::from_str::<Value>(s) {
        Ok(v) => Some(v),
        Err(_) => None,
    }
}

/// Relies on `serde_json::Value::as_array` and `Value::as_str`: the
/// elements of an array of strings, or nothing on any other shape.
/// Serves [`query_doc`].
#[verifier::external_body]
fn strings_shape(e: &Value) -> Option<Vec<String>> {
    let arr = e.as_array()?;
    let mut out: Vec<String> = Vec::new();
    for item in arr {
        out.push(item.as_str()?.to_string());
    }
    Some(out)
}

/// Relies on `serde_json::Value::get`, `Value::as_str` and
/// `Value::is_null`: reads the documentation shape out of a queried node —
/// an object with a string `description` and an optional `examples` array
/// of strings; a missing or `null` `examples` field leaves the examples
/// out, and any other shape mismatch yields nothing.  Serves
/// [`query_doc`].
#[verifier::external_body]
fn doc_shape(v: &Value) -> Option<KeybindingDoc> {
    let desc = match v.get("description") {
        Some(d) => match d.as_str() {
            Some(s) => s.to_string(),
            None => return None,
        },
        None => return None,
    };
    let examples = match v.get("examples") {
        Some(e) if !e.is_null() => Some(strings_shape(e)?),
        _ => None,
    };
    Some(KeybindingDoc { description: desc, examples })
}

/// Relies on `access_json::JSONQuery::parse` and `JSONQuery::execute`,
/// with the shape read through [`doc_shape`]: the documentation the
/// document yields at the path, or nothing when the path does not parse,
/// leads nowhere, or the node mismatches the shape.  The result depends on
/// the document value and the path alone.  An empty path is refused
/// because it parses to the empty query, the one query whose execution can
/// panic; a non-empty path either fails to parse or yields at least one
/// element, on which execution is safe.
#[verifier::external_body]
pub(crate) fn query_doc(v: &Value, path: &str) -> (r: Option<KeybindingDoc>)
    requires
        path@.len() > 0,
    ensures
        match r {
            Some(d) => doc_in(*v, path@) == Some(d@),
            None => doc_in(*v, path@) is None,
        },
{
    let q = match JSONQuery::parse(path) {
        Ok(q) => q,
        Err(_) => return None,
    };
    match q.execute(v) {
        Ok(Some(node)) => doc_shape(&node),
        _ => None,
    }
}

} // verus!
