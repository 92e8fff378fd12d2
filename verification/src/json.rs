//! The two places where the crate leans on `serde_json`: parsing the body of
//! a `<tool_call>` block, and dropping null-valued keys from an arguments
//! object before it is handed to the tool invoker.
//!
//! Both results are deterministic functions of the input text alone, but
//! stating the JSON grammar here would restate `serde_json`; each result is
//! therefore given a name that the callers' contracts use exactly.

use vstd::prelude::*;

verus! {

/// The name and the re-serialized arguments object of a tool-call body:
/// `Some((name, arguments))` exactly when the text parses as a JSON value
/// with a string field `name` and an object field `arguments`, and `None`
/// otherwise.  `arguments` is `serde_json`'s compact serialization of the
/// object, so equal objects yield equal text.
pub uninterp spec fn tool_call_fields(s: Seq<char>) -> Option<(Seq<char>, Seq<char>)>;

/// Relies on `serde_json::from_str`, `serde_json::Value::{get, as_str,
/// as_object}` and `serde_json::to_string`: parses the body of a tool-call
/// block and hands back its `name` and its re-serialized `arguments` object,
/// or `None` when the text is not such a JSON value.
#[verifier::external_body]
pub(crate) fn parse_tool_call_body(s: &str) -> (r: Option<(String, String)>)
    ensures
        r is Some <==> tool_call_fields(s@) is Some,
        r matches Some(p) ==> (p.0@, p.1@) == tool_call_fields(s@)->0,
{
    let v: serde_json::Value = serde_json::from_str(s).ok()?;
    let name = v.get("name")?.as_str()?;
    let args = v.get("arguments")?.as_object()?;
    let text = serde_json::to_string(args).ok()?;
    Some((name.to_string(), text))
}

/// The arguments text with null-valued keys removed: the compact
/// serialization of the parsed object minus its null entries, or `{}` when
/// the text does not parse as a JSON object.
pub uninterp spec fn strip_nulls(s: Seq<char>) -> Seq<char>;

/// Relies on `serde_json::from_str`, `serde_json::Map::retain`,
/// `serde_json::Value::is_null` and `serde_json::to_string`: drops
/// null-valued keys from a JSON object, falling back to the empty object
/// when the text does not parse.
#[verifier::external_body]
pub(crate) fn strip_null_arguments(s: &str) -> (r: String)
    ensures
        r@ == strip_nulls(s@),
{
    match serde_json::from_str::<serde_json::Map<String, serde_json::Value>>(s) {
        Ok(mut map) => {
            map.retain(|_, v| !v.is_null());
            serde_json::to_string(&map).unwrap_or_else(|_| String::from("{}"))
        },
        Err(_) => String::from("{}"),
    }
}

} // verus!
