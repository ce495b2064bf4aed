//! The API front of the client: what is sent to TDLib and what is logged.
use vstd::prelude::*;

use crate::client::errors::{RTDError, RTDResult};
use crate::client::rtd::RFunction;

verus! {

broadcast use vstd::string::group_string_axioms;

/// The text after `regex::Regex::replace_all` of `pattern` with `rep` in `text`.
pub uninterp spec fn regex_replaced(pattern: Seq<char>, text: Seq<char>, rep: Seq<char>) -> Seq<char>;

/// Whether `regex::Regex::new` accepts `pattern`.
pub uninterp spec fn regex_accepts(pattern: Seq<char>) -> bool;

/// `regex::Regex::new` then `Regex::replace_all`: every match of `pattern`
/// in `text` replaced with `rep`; `None` when the pattern is refused. What
/// the replacement gives is named, not stated.
#[verifier::external_body]
fn replace_all_matches(pattern: &str, text: &str, rep: &str) -> (res: Option<String>)
    ensures
        res is Some <==> regex_accepts(pattern@),
        res matches Some(r) ==> r@ == regex_replaced(pattern@, text@, rep@),
{
    match regex::Regex::new(pattern) {
        Ok(re) => Some(re.replace_all(text, rep).into_owned()),
        Err(_) => None,
    }
}

/// The API id in a request.
pub open spec fn api_id_pattern() -> Seq<char> {
    r#"api_id":\d*"#@
}

/// What the API id is shown as.
pub open spec fn api_id_mask() -> Seq<char> {
    r#"api_id":"****""#@
}

/// The API hash in a request.
pub open spec fn api_hash_pattern() -> Seq<char> {
    r#"api_hash":"[0-9|a-f]*""#@
}

/// What the API hash is shown as.
pub open spec fn api_hash_mask() -> Seq<char> {
    r#"api_hash":"**********""#@
}

/// Whether both masking patterns are accepted.
pub open spec fn masks_accepted() -> bool {
    regex_accepts(api_id_pattern()) && regex_accepts(api_hash_pattern())
}

/// `text` with the API id and hash masked.
pub open spec fn masked(text: Seq<char>) -> Seq<char> {
    regex_replaced(api_hash_pattern(), regex_replaced(api_id_pattern(), text, api_id_mask()), api_hash_mask())
}

/// What a log line shows of `text`: all of it with unsafe logging, else the
/// masked text.
pub open spec fn shown(unsafe_log: bool, text: Seq<char>) -> Seq<char> {
    if unsafe_log {
        text
    } else {
        masked(text)
    }
}

/// What a request to TDLib is: its JSON text and the line to log, if any.
#[derive(Debug, Clone)]
pub struct TdRequest {
    pub json: String,
    pub log: Option<String>,
}

/// The API front, over a TDLib handle of type `T`.
#[derive(Debug, Clone)]
pub struct Api<T> {
    tdlib: T,
    log: bool,
    unsafe_log: bool,
}

/// Builds an `Api`.
#[derive(Debug, Clone)]
pub struct ApiBuilder<T> {
    inner: Api<T>,
}

impl<T> ApiBuilder<T> {
    /// A builder with logging on and unsafe logging off.
    pub fn new(tdlib: T) -> (res: Self)
        ensures
            res.log_on() && !res.unsafe_log_on(),
            res.tdlib_handle() == tdlib,
    {
        ApiBuilder { inner: Api { tdlib, log: true, unsafe_log: false } }
    }

    /// Whether the built API will log.
    pub closed spec fn log_on(&self) -> bool {
        self.inner.log
    }

    /// Whether the built API will log requests unmasked.
    pub closed spec fn unsafe_log_on(&self) -> bool {
        self.inner.unsafe_log
    }

    /// The TDLib handle the built API will use.
    pub closed spec fn tdlib_handle(&self) -> T {
        self.inner.tdlib
    }

    /// Turns logging on or off.
    pub fn log(&mut self, open: bool) -> (res: &mut Self)
        ensures
            res.log_on() == open,
            res.unsafe_log_on() == old(self).unsafe_log_on(),
            res.tdlib_handle() == old(self).tdlib_handle(),
            *final(self) == *final(res),
    {
        self.inner.log = open;
        self
    }

    /// Turns unmasked logging on or off.
    pub fn unsafe_log(&mut self, unsafe_log: bool) -> (res: &mut Self)
        ensures
            res.log_on() == old(self).log_on(),
            res.unsafe_log_on() == unsafe_log,
            res.tdlib_handle() == old(self).tdlib_handle(),
            *final(self) == *final(res),
    {
        self.inner.unsafe_log = unsafe_log;
        self
    }
}

impl<T: Clone> ApiBuilder<T> {
    /// The API with the builder's settings.
    pub fn build(&self) -> (res: Api<T>)
        ensures
            res.log_on() == self.log_on(),
            res.unsafe_log_on() == self.unsafe_log_on(),
            cloned(self.tdlib_handle(), res.tdlib_spec()),
    {
        Api { tdlib: self.inner.tdlib.clone(), log: self.inner.log, unsafe_log: self.inner.unsafe_log }
    }
}

impl<T> Api<T> {
    /// Whether the API logs.
    pub closed spec fn log_on(&self) -> bool {
        self.log
    }

    /// Whether the API logs requests unmasked.
    pub closed spec fn unsafe_log_on(&self) -> bool {
        self.unsafe_log
    }

    /// The TDLib handle.
    pub fn tdlib(&self) -> (res: &T)
        ensures
            *res == self.tdlib_spec(),
    {
        &self.tdlib
    }

    /// The TDLib handle.
    pub closed spec fn tdlib_spec(&self) -> T {
        self.tdlib
    }

    /// `text` with the API id and hash masked, unless unsafe logging is on;
    /// `None` when a masking pattern is refused.
    fn safe_log(&self, text: &String) -> (res: Option<String>)
        ensures
            self.unsafe_log_on() ==> (res matches Some(r) && r@ == text@),
            !self.unsafe_log_on() ==> (res is Some <==> masks_accepted()),
            !self.unsafe_log_on() ==> (res matches Some(r) ==> r@ == masked(text@)),
    {
        if self.unsafe_log {
            return Some(text.clone());
        }
        let hide_api_id = match replace_all_matches(r#"api_id":\d*"#, text.as_str(), r#"api_id":"****""#) {
            Some(t) => t,
            None => return None,
        };
        replace_all_matches(r#"api_hash":"[0-9|a-f]*""#, hide_api_id.as_str(), r#"api_hash":"**********""#)
    }

    /// The line to log for `text` after `prefix`: none when logging is off,
    /// else `prefix` and what is shown of `text`.
    pub fn log_line(&self, prefix: &str, text: &String) -> (res: RTDResult<Option<String>>)
        ensures
            !self.log_on() ==> res matches Ok(None),
            self.log_on() && (self.unsafe_log_on() || masks_accepted()) ==> (res matches Ok(Some(l)) && l@
                == prefix@ + shown(self.unsafe_log_on(), text@)),
            self.log_on() && !(self.unsafe_log_on() || masks_accepted()) ==> res is Err,
    {
        if !self.log {
            return Ok(None);
        }
        match self.safe_log(text) {
            Some(shown) => {
                let mut line = prefix.to_string();
                line.append(shown.as_str());
                Ok(Some(line))
            },
            None => Err(RTDError::custom("Regex fail".to_string())),
        }
    }

    /// The `<=== ` log line of a text received from TDLib: none when logging
    /// is off or nothing was received.
    pub fn receive_log(&self, received: &Option<String>) -> (res: RTDResult<Option<String>>)
        ensures
            (!self.log_on() || received is None) ==> res matches Ok(None),
            self.log_on() && (self.unsafe_log_on() || masks_accepted()) ==> (received matches Some(t) ==> (
            res matches Ok(Some(l)) && l@ == "<=== "@ + shown(self.unsafe_log_on(), t@))),
            self.log_on() && !(self.unsafe_log_on() || masks_accepted()) ==> (received is Some <==> res is Err),
    {
        match received {
            Some(text) => self.log_line("<=== ", text),
            None => Ok(None),
        }
    }

    /// The request that sends `json` to TDLib, with its `===> ` log line.
    pub fn send_json(&self, json: String) -> (res: RTDResult<TdRequest>)
        ensures
            !self.log_on() ==> (res matches Ok(r) && r.json@ == json@ && r.log is None),
            self.log_on() && (self.unsafe_log_on() || masks_accepted()) ==> (res matches Ok(r) && r.json@
                == json@ && (r.log matches Some(l) && l@ == "===> "@ + shown(self.unsafe_log_on(), json@))),
            self.log_on() && !(self.unsafe_log_on() || masks_accepted()) ==> res is Err,
    {
        let log = self.log_line("===> ", &json)?;
        Ok(TdRequest { json, log })
    }

    /// The request that executes `json` in TDLib, with its `===>>> ` log line.
    pub fn execute_json(&self, json: String) -> (res: RTDResult<TdRequest>)
        ensures
            !self.log_on() ==> (res matches Ok(r) && r.json@ == json@ && r.log is None),
            self.log_on() && (self.unsafe_log_on() || masks_accepted()) ==> (res matches Ok(r) && r.json@
                == json@ && (r.log matches Some(l) && l@ == "===>>> "@ + shown(self.unsafe_log_on(), json@))),
            self.log_on() && !(self.unsafe_log_on() || masks_accepted()) ==> res is Err,
    {
        let log = self.log_line("===>>> ", &json)?;
        Ok(TdRequest { json, log })
    }
}

/// Whether `res` is the request that `prefix` (`===> ` or `===>>> `) makes
/// of the JSON text `json`, as `send_json` and `execute_json` give it.
pub open spec fn request_of<T>(api: Api<T>, prefix: Seq<char>, json: Seq<char>, res: RTDResult<TdRequest>) -> bool {
    &&& !api.log_on() ==> (res matches Ok(r) && r.json@ == json && r.log is None)
    &&& api.log_on() && (api.unsafe_log_on() || masks_accepted()) ==> (res matches Ok(r) && r.json@ == json && (
    r.log matches Some(l) && l@ == prefix + shown(api.unsafe_log_on(), json)))
    &&& api.log_on() && !(api.unsafe_log_on() || masks_accepted()) ==> res is Err
}

impl<T> Api<T> {
    /// The request that sends a function written as `json` (the result of
    /// writing it): its error passed on, else the request of `send_json`.
    pub fn send_result(&self, json: RTDResult<String>) -> (res: RTDResult<TdRequest>)
        ensures
            match json {
                Err(e) => res == Err::<TdRequest, RTDError>(e),
                Ok(j) => request_of(*self, "===> "@, j@, res),
            },
    {
        match json {
            Err(e) => Err(e),
            Ok(j) => self.send_json(j),
        }
    }

    /// The request that executes a function written as `json` (the result of
    /// writing it): its error passed on, else the request of `execute_json`.
    pub fn execute_result(&self, json: RTDResult<String>) -> (res: RTDResult<TdRequest>)
        ensures
            match json {
                Err(e) => res == Err::<TdRequest, RTDError>(e),
                Ok(j) => request_of(*self, "===>>> "@, j@, res),
            },
    {
        match json {
            Err(e) => Err(e),
            Ok(j) => self.execute_json(j),
        }
    }

    /// The request that sends the function `fnc` to TDLib, with its `===> `
    /// log line; an error when `fnc` cannot be written as JSON.
    pub fn send<F: RFunction>(&self, fnc: &F) -> (res: RTDResult<TdRequest>)
        ensures
            res matches Ok(r) ==> (!self.log_on() ==> r.log is None),
            res matches Ok(r) ==> (self.log_on() ==> (r.log matches Some(l) && l@ == "===> "@ + shown(
                self.unsafe_log_on(),
                r.json@,
            ))),
    {
        let json = fnc.to_json();
        self.send_result(json)
    }

    /// The request that executes the function `fnc` in TDLib, with its
    /// `===>>> ` log line; an error when `fnc` cannot be written as JSON.
    pub fn execute<F: RFunction>(&self, fnc: &F) -> (res: RTDResult<TdRequest>)
        ensures
            res matches Ok(r) ==> (!self.log_on() ==> r.log is None),
            res matches Ok(r) ==> (self.log_on() ==> (r.log matches Some(l) && l@ == "===>>> "@ + shown(
                self.unsafe_log_on(),
                r.json@,
            ))),
    {
        let json = fnc.to_json();
        self.execute_result(json)
    }
}

/// The API front used by the asynchronous client.
#[derive(Debug, Clone)]
pub struct AsyncApi<T> {
    api: Api<T>,
}

impl<T> AsyncApi<T> {
    /// The front over `api`.
    pub fn new(api: Api<T>) -> (res: Self)
        ensures
            res.api_spec() == api,
    {
        AsyncApi { api }
    }

    /// The API used.
    pub closed spec fn api_spec(&self) -> Api<T> {
        self.api
    }

    /// The API used.
    pub fn api(&self) -> (res: &Api<T>)
        ensures
            *res == self.api_spec(),
    {
        &self.api
    }
}

/// The ASCII digit of `d` (0 to 9).
pub open spec fn digit(d: int) -> char {
    (48 + d) as char
}

/// The decimal digits of a natural number, most significant first.
pub open spec fn nat_decimal(n: nat) -> Seq<char>
    decreases n,
{
    if n < 10 {
        seq![digit(n as int)]
    } else {
        nat_decimal(n / 10).push(digit((n % 10) as int))
    }
}

/// The decimal text of an integer, with `-` before a negative one.
pub open spec fn decimal(n: int) -> Seq<char> {
    if n < 0 {
        seq!['-'] + nat_decimal((-n) as nat)
    } else {
        nat_decimal(n as nat)
    }
}

/// The ASCII digit of `d`.
fn digit_char(d: u32) -> (res: char)
    requires
        d < 10,
    ensures
        res == digit(d as int),
{
    match d {
        0 => '0',
        1 => '1',
        2 => '2',
        3 => '3',
        4 => '4',
        5 => '5',
        6 => '6',
        7 => '7',
        8 => '8',
        _ => '9',
    }
}

/// The decimal digits of `n`, most significant first.
fn nat_text(n: u32) -> (res: Vec<char>)
    ensures
        res@ == nat_decimal(n as nat),
    decreases n,
{
    if n < 10 {
        vec![digit_char(n)]
    } else {
        let mut v = nat_text(n / 10);
        v.push(digit_char(n % 10));
        v
    }
}

/// The decimal text of `n`, with `-` before a negative one.
fn int_text(n: i32) -> (res: String)
    ensures
        res@ == decimal(n as int),
{
    if n < 0 {
        let m: i64 = -(n as i64);
        let v = vec!['-'];
        let digits = nat_text(m as u32);
        assert(m as u32 as nat == (-(n as int)) as nat);
        let all = crate::text::concat_chars(&v, &digits);
        assert(all@ =~= seq!['-'] + nat_decimal((-(n as int)) as nat));
        crate::text::string_of(&all)
    } else {
        let digits = nat_text(n as u32);
        crate::text::string_of(&digits)
    }
}

/// What an awaited call gets back, sorted by its caller: the channel closed
/// with nothing, a TDLib error object, an object of the type the call
/// returns, or an object of another type. A TDLib error object is sorted as
/// `Error` even for a call that returns errors.
pub enum AsyncReply<T> {
    Closed,
    Error { code: i32, message: String },
    Expected(T),
    Unexpected,
}

/// The message of a call that cannot be awaited: it has no request id.
pub open spec fn no_extra_message() -> Seq<char> {
    "invalid tdjson response type, not have `extra` field"@
}

/// The message of a reply of an unexpected kind.
pub open spec fn unexpected_message() -> Seq<char> {
    "invalid tdjson response type, unexpected `extra` field"@
}

/// The message of a TDLib error object: `[code] message`.
pub open spec fn error_message(code: i32, message: Seq<char>) -> Seq<char> {
    seq!['['] + decimal(code as int) + seq![']', ' '] + message
}

/// What an awaited call returns for its reply: the value of the expected
/// type, or an error.
pub fn async_result<T>(reply: AsyncReply<T>) -> (res: RTDResult<T>)
    ensures
        match reply {
            AsyncReply::Expected(v) => res == Ok::<T, RTDError>(v),
            AsyncReply::Error { code, message } => res matches Err(RTDError::Custom(m)) && m@ == error_message(
                code,
                message@,
            ),
            _ => res matches Err(RTDError::Custom(m)) && m@ == unexpected_message(),
        },
{
    match reply {
        AsyncReply::Expected(v) => Ok(v),
        AsyncReply::Error { code, message } => {
            proof {
                reveal_strlit("[");
                reveal_strlit("] ");
            }
            let mut m = "[".to_string();
            m.append(int_text(code).as_str());
            m.append("] ");
            m.append(message.as_str());
            Err(RTDError::custom(m))
        },
        _ => Err(RTDError::custom("invalid tdjson response type, unexpected `extra` field".to_string())),
    }
}

impl<T> AsyncApi<T> {
    /// The request id that an awaited call of `fnc` waits under: its
    /// `@extra`; an error when it has none.
    pub fn call_extra<F: RFunction>(&self, fnc: &F) -> (res: RTDResult<String>)
        ensures
            res matches Err(e) ==> e matches RTDError::Custom(m) && m@ == no_extra_message(),
    {
        match fnc.extra() {
            Some(x) => Ok(x),
            None => Err(RTDError::custom("invalid tdjson response type, not have `extra` field".to_string())),
        }
    }
}

/// The API front used by the event client.
#[derive(Debug, Clone)]
pub struct EventApi<T> {
    api: Api<T>,
}

impl<T> EventApi<T> {
    /// The front over `api`.
    pub fn new(api: Api<T>) -> (res: Self)
        ensures
            res.api_spec() == api,
    {
        EventApi { api }
    }

    /// The API used.
    pub closed spec fn api_spec(&self) -> Api<T> {
        self.api
    }

    /// The API used.
    pub fn api(&self) -> (res: &Api<T>)
        ensures
            *res == self.api_spec(),
    {
        &self.api
    }
}

impl<T: Clone> Api<T> {
    /// A builder over `tdlib`.
    pub fn builder(tdlib: T) -> (res: ApiBuilder<T>)
        ensures
            res.log_on() && !res.unsafe_log_on(),
            res.tdlib_handle() == tdlib,
    {
        ApiBuilder::new(tdlib)
    }

    /// An API over `tdlib` with logging on and unsafe logging off.
    pub fn new(tdlib: T) -> (res: Self)
        ensures
            res.log_on() && !res.unsafe_log_on(),
            cloned(tdlib, res.tdlib_spec()),
    {
        ApiBuilder::new(tdlib).build()
    }
}

} // verus!
