//! What the client needs of the generated type library: objects that write
//! themselves as JSON, and the type name and request id of a received text.
use vstd::prelude::*;

use crate::client::errors::RTDResult;
use crate::tl_parser::types::opt_view;

verus! {

/// A TDLib object of the generated type library.
pub trait RObject {
    /// The TDLib type name (`@type`).
    fn td_name(&self) -> &'static str;

    /// The request id (`@extra`), if any.
    fn extra(&self) -> Option<String>;

    /// The object as JSON text.
    fn to_json(&self) -> RTDResult<String>;
}

/// A TDLib function (a request) of the generated type library.
pub trait RFunction: RObject {
}

/// The `@type` and `@extra` string fields of a JSON text, each none where
/// the text is not JSON or has no such string field.
pub uninterp spec fn json_tags(json: Seq<char>) -> (Option<Seq<char>>, Option<Seq<char>>);

/// `serde_json::from_str` into a JSON value, then its `@type` and `@extra`
/// string fields (`serde_json::Value::get`, `Value::as_str`); both none when
/// the text is not JSON. What JSON reading gives is named, not stated.
#[verifier::external_body]
pub(crate) fn detect_td_type_and_extra(json: &str) -> (res: (Option<String>, Option<String>))
    ensures
        (opt_view(res.0), opt_view(res.1)) == json_tags(json@),
{
    let value: serde_json::Value = match serde_json::from_str(json) {
        Ok(v) => v,
        Err(_) => return (None, None),
    };
    let field = |name: &str| value.get(name).and_then(|t| t.as_str()).map(|t| t.to_string());
    (field("@type"), field("@extra"))
}

/// The TDLib type name (`@type`) of a JSON text, if it has one.
pub fn detect_td_type(json: &str) -> (res: Option<String>)
    ensures
        opt_view(res) == json_tags(json@).0,
{
    detect_td_type_and_extra(json).0
}

} // verus!
