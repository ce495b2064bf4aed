//! Errors of the client and of the type library it uses.
use vstd::prelude::*;

verus! {

/// An error of the type library: a message.
#[derive(Debug, Clone)]
pub enum RTDError {
    Custom(String),
}

impl RTDError {
    /// An error with the given message.
    pub fn custom(message: String) -> (res: Self)
        ensures
            res == RTDError::Custom(message),
    {
        RTDError::Custom(message)
    }
}

/// The result of the type library.
pub type RTDResult<T> = Result<T, RTDError>;

/// An error of the client: a key naming what failed, and a message.
#[derive(Debug, Clone)]
pub struct TGError {
    key: String,
    message: Option<String>,
}

/// The mathematical value of a client error.
pub struct TGErrorV {
    pub key: Seq<char>,
    pub message: Option<Seq<char>>,
}

impl View for TGError {
    type V = TGErrorV;

    closed spec fn view(&self) -> TGErrorV {
        TGErrorV {
            key: self.key@,
            message: match self.message {
                Some(m) => Some(m@),
                None => None,
            },
        }
    }
}

impl TGError {
    /// An error with the given key and no message.
    pub fn new(key: &str) -> (res: Self)
        ensures
            res@ == (TGErrorV { key: key@, message: None }),
    {
        TGError { key: key.to_string(), message: None }
    }

    /// The same error with a message.
    pub fn with_message(self, message: String) -> (res: Self)
        ensures
            res@ == (TGErrorV { key: self@.key, message: Some(message@) }),
    {
        TGError { key: self.key, message: Some(message) }
    }

    /// What failed.
    pub fn key(&self) -> (res: &String)
        ensures
            res@ == self@.key,
    {
        &self.key
    }

    /// The message, if any.
    pub fn message(&self) -> (res: &Option<String>)
        ensures
            self@.message == (match *res {
                Some(m) => Some(m@),
                None => None,
            }),
    {
        &self.message
    }
}

/// The result of the client.
pub type TGResult<T> = Result<T, TGError>;

} // verus!
