//! A response that could not be turned into a type.
use vstd::prelude::*;

use crate::client::errors::RTDError;

verus! {

broadcast use vstd::string::group_string_axioms;

/// A received JSON text together with the error that reading it gave.
#[derive(Debug, Clone)]
pub struct TGException {
    json: String,
    e: RTDError,
}

impl View for TGException {
    type V = (Seq<char>, RTDError);

    closed spec fn view(&self) -> (Seq<char>, RTDError) {
        (self.json@, self.e)
    }
}

impl TGException {
    /// The exception of `json` with error `e`.
    pub fn new(json: &str, e: RTDError) -> (res: Self)
        ensures
            res@ == (json@, e),
    {
        TGException { json: json.to_string(), e }
    }

    /// The received text.
    pub fn json(&self) -> (res: &String)
        ensures
            res@ == self@.0,
    {
        &self.json
    }

    /// The error that reading it gave.
    pub fn e(&self) -> (res: &RTDError)
        ensures
            *res == self@.1,
    {
        &self.e
    }
}

} // verus!
