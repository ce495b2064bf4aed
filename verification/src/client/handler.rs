//! The event handler: what the client does with a text received from TDLib.
use vstd::prelude::*;

use crate::client::errors::{RTDResult, TGError, TGErrorV, TGResult};
use crate::client::listener::EventLout;
use crate::client::rtd::{detect_td_type_and_extra, json_tags};
use crate::strmap::assoc_get;
use crate::tl_parser::types::opt_view;

verus! {

broadcast use vstd::string::group_string_axioms;

/// What became of a received text.
#[derive(PartialEq, Eq, Structural, Debug, Clone, Copy)]
pub enum HandleOutcome {
    /// The text names no TDLib type: it is dropped.
    Undetected,
    /// The text could not be read as a value of its type.
    Unreadable,
    /// The handler of its type took the value.
    Handled,
    /// No handler is set for its type.
    Unhandled,
    /// The handler of its type failed.
    Failed,
}

/// What the handling of a received text did: its outcome, whether the
/// missing handler is to be warned of, the errors handed to the exception
/// handler in order, and the request id whose awaiting sender is to get the
/// value.
pub struct HandleReport {
    pub outcome: HandleOutcome,
    pub warn_unregistered: bool,
    pub raised: Vec<TGError>,
    pub notify: Option<String>,
}

/// The mathematical value of a `HandleReport`.
pub struct HandleReportV {
    pub outcome: HandleOutcome,
    pub warn_unregistered: bool,
    pub raised: Seq<TGErrorV>,
    pub notify: Option<Seq<char>>,
}

impl View for HandleReport {
    type V = HandleReportV;

    open spec fn view(&self) -> HandleReportV {
        HandleReportV {
            outcome: self.outcome,
            warn_unregistered: self.warn_unregistered,
            raised: self.raised@.map_values(|e: TGError| e@),
            notify: opt_view(self.notify),
        }
    }
}

/// The error raised when a typed handler fails.
pub open spec fn event_handler_error() -> TGErrorV {
    TGErrorV { key: "EVENT_HANDLER_ERROR"@, message: None }
}

/// The error raised when a text cannot be read as a value of its type.
pub open spec fn deserialize_error() -> TGErrorV {
    TGErrorV { key: "DESERIALIZE_JSON_FAIL"@, message: None }
}

/// `e` as raised, when an exception handler is set.
pub open spec fn raise_if(has_exception: bool, e: TGErrorV) -> Seq<TGErrorV> {
    if has_exception {
        seq![e]
    } else {
        seq![]
    }
}

/// What the receive step raises, for the result `rr` of the receive handler
/// (none when no receive handler is set).
pub open spec fn receive_raised(has_exception: bool, rr: Option<TGResult<()>>) -> Seq<TGErrorV> {
    match rr {
        Some(Err(e)) => raise_if(has_exception, e@),
        _ => seq![],
    }
}

/// The report of a text of a TDLib type, from what the handlers returned:
/// `rr` by the receive handler, `tr` by the handler of the type (none when
/// none is set); `readable` tells whether the text could be read as a value.
pub open spec fn report_of(
    has_exception: bool,
    warn_flag: bool,
    rr: Option<TGResult<()>>,
    readable: bool,
    tr: Option<TGResult<()>>,
    extra: Option<Seq<char>>,
) -> HandleReportV {
    let raised = receive_raised(has_exception, rr);
    if !readable {
        HandleReportV {
            outcome: HandleOutcome::Unreadable,
            warn_unregistered: false,
            raised: raised + raise_if(has_exception, deserialize_error()),
            notify: None,
        }
    } else {
        match tr {
            None => HandleReportV {
                outcome: HandleOutcome::Unhandled,
                warn_unregistered: warn_flag,
                raised,
                notify: extra,
            },
            Some(Ok(_)) => HandleReportV {
                outcome: HandleOutcome::Handled,
                warn_unregistered: false,
                raised,
                notify: None,
            },
            Some(Err(_)) => HandleReportV {
                outcome: HandleOutcome::Failed,
                warn_unregistered: false,
                raised: raised + raise_if(has_exception, event_handler_error()),
                notify: extra,
            },
        }
    }
}

/// The report of a text that names no TDLib type.
pub open spec fn undetected_report() -> HandleReportV {
    HandleReportV {
        outcome: HandleOutcome::Undetected,
        warn_unregistered: false,
        raised: seq![],
        notify: None,
    }
}

/// Hands received texts to the handlers of an event listener.
pub struct Handler<'a, A, E, R, H> {
    api: &'a A,
    lout: &'a EventLout<E, R, H>,
    warn_unregister_listener: bool,
}

impl<'a, A, E, R, H> Handler<'a, A, E, R, H> {
    /// The API handed to the handlers.
    pub closed spec fn api_spec(&self) -> &'a A {
        self.api
    }

    /// The handlers.
    pub closed spec fn lout_spec(&self) -> &'a EventLout<E, R, H> {
        self.lout
    }

    /// Whether a text of a type without handler is to be warned of.
    pub closed spec fn warn_spec(&self) -> bool {
        self.warn_unregister_listener
    }

    /// The handler of `lout`'s handlers, handing them `api`.
    pub fn new(api: &'a A, lout: &'a EventLout<E, R, H>, warn_unregister_listener: bool) -> (res: Self)
        ensures
            res.api_spec() == api,
            res.lout_spec() == lout,
            res.warn_spec() == warn_unregister_listener,
    {
        Handler { api, lout, warn_unregister_listener }
    }

    /// Whether the receive handler ran on `json` with result `rr` (none when
    /// no receive handler is set).
    pub open spec fn receive_ran(&self, json: &String, rr: Option<TGResult<()>>) -> bool
        where
            R: Fn((&A, &String)) -> TGResult<()>,
    {
        match self.lout_spec().listener_spec().receive {
            None => rr is None,
            Some(f) => rr matches Some(r) && call_ensures(f, ((self.api_spec(), json),), r),
        }
    }

    /// Whether the handler of type `name` ran on `value` with result `tr`
    /// (none when no handler is set for the type).
    pub open spec fn typed_ran<P>(&self, name: Seq<char>, value: &P, tr: Option<TGResult<()>>) -> bool
        where
            H: Fn((&A, &P)) -> TGResult<()>,
    {
        match assoc_get(self.lout_spec().listener_spec().handlers, name) {
            None => tr is None,
            Some(h) => tr matches Some(r) && call_ensures(h, ((self.api_spec(), value),), r),
        }
    }

    /// Handles `json`, a text received from TDLib, of which `parsed` is the
    /// reading as a typed value: the receive handler gets the text, the
    /// handler of its type gets the value, and each failure goes to the
    /// exception handler. A text that names no type is dropped.
    pub fn handle<P>(&self, json: &String, parsed: RTDResult<P>) -> (res: HandleReport)
        where
            E: Fn((&A, &TGError)),
            R: Fn((&A, &String)) -> TGResult<()>,
            H: Fn((&A, &P)) -> TGResult<()>,
        requires
            self.lout_spec().listener_spec().exception matches Some(x) ==> forall|a: (&A, &TGError)|
                call_requires(x, (a,)),
            self.lout_spec().listener_spec().receive matches Some(f) ==> forall|a: (&A, &String)|
                call_requires(f, (a,)),
            forall|k: Seq<char>, a: (&A, &P)|
                #![trigger assoc_get(self.lout_spec().listener_spec().handlers, k), call_requires(
                    assoc_get(self.lout_spec().listener_spec().handlers, k)->Some_0,
                    (a,),
                )]
                assoc_get(self.lout_spec().listener_spec().handlers, k) is Some ==> call_requires(
                    assoc_get(self.lout_spec().listener_spec().handlers, k)->Some_0,
                    (a,),
                ),
        ensures
            json_tags(json@).0 is None ==> res@ == undetected_report(),
            json_tags(json@).0 matches Some(name) ==> exists|rr: Option<TGResult<()>>, tr: Option<TGResult<()>>|
                self.receive_ran(json, rr) && match parsed {
                    Ok(p) => self.typed_ran(name, &p, tr),
                    Err(_) => tr is None,
                } && res@ == #[trigger] report_of(
                    self.lout_spec().listener_spec().exception is Some,
                    self.warn_spec(),
                    rr,
                    parsed is Ok,
                    tr,
                    json_tags(json@).1,
                ),
    {
        let (td_type, extra) = match detect_td_type_and_extra(json.as_str()) {
            (Some(t), e) => (t, e),
            (None, _) => {
                let res = HandleReport {
                    outcome: HandleOutcome::Undetected,
                    warn_unregistered: false,
                    raised: Vec::new(),
                    notify: None,
                };
                assert(res@.raised =~= seq![]);
                return res;
            },
        };
        let ghost has_exception = self.lout.listener_spec().exception is Some;
        let mut raised: Vec<TGError> = Vec::new();
        let ghost mut rr: Option<TGResult<()>> = None;
        match self.lout.receive() {
            Some(f) => {
                let r = f((self.api, json));
                proof {
                    rr = Some(r);
                }
                match r {
                    Err(e) => match self.lout.exception() {
                        Some(x) => {
                            x((self.api, &e));
                            raised.push(e);
                        },
                        None => {},
                    },
                    Ok(_) => {},
                }
            },
            None => {},
        }
        assert(raised@.map_values(|e: TGError| e@) =~= receive_raised(has_exception, rr));
        let ghost raised0 = raised@.map_values(|e: TGError| e@);
        match parsed {
            Err(_) => {
                match self.lout.exception() {
                    Some(x) => {
                        let e = TGError::new("DESERIALIZE_JSON_FAIL");
                        x((self.api, &e));
                        raised.push(e);
                    },
                    None => {},
                }
                let res = HandleReport {
                    outcome: HandleOutcome::Unreadable,
                    warn_unregistered: false,
                    raised,
                    notify: None,
                };
                assert(res@.raised =~= raised0 + raise_if(has_exception, deserialize_error()));
                assert(self.receive_ran(json, rr));
                let ghost tr: Option<TGResult<()>> = None;
                assert(res@ == report_of(
                    self.lout_spec().listener_spec().exception is Some,
                    self.warn_spec(),
                    rr,
                    false,
                    tr,
                    json_tags(json@).1,
                ));
                res
            },
            Ok(t) => {
                let ht = self.lout.handle_type(self.api, td_type.as_str(), &t);
                let ghost tr: Option<TGResult<()>> = match assoc_get(self.lout.listener_spec().handlers, td_type@) {
                    None => None,
                    Some(h) => Some(choose|r: TGResult<()>| call_ensures(h, ((self.api, &t),), r) && ht == crate::client::listener::handled(r)),
                };
                let (outcome, warn, failed) = match ht {
                    Ok(true) => (HandleOutcome::Handled, false, false),
                    Ok(false) => (HandleOutcome::Unhandled, self.warn_unregister_listener, false),
                    Err(_) => (HandleOutcome::Failed, false, true),
                };
                if failed {
                    match self.lout.exception() {
                        Some(x) => {
                            let e = TGError::new("EVENT_HANDLER_ERROR");
                            x((self.api, &e));
                            raised.push(e);
                        },
                        None => {},
                    }
                }
                let notify = match outcome {
                    HandleOutcome::Handled => None,
                    _ => extra,
                };
                let res = HandleReport { outcome, warn_unregistered: warn, raised, notify };
                assert(self.typed_ran(td_type@, &t, tr));
                assert(self.receive_ran(json, rr));
                assert(res@ == report_of(
                    self.lout_spec().listener_spec().exception is Some,
                    self.warn_spec(),
                    rr,
                    true,
                    tr,
                    json_tags(json@).1,
                )) by {
                    if failed {
                        assert(res@.raised =~= raised0 + raise_if(has_exception, event_handler_error()));
                    } else {
                        assert(res@.raised =~= raised0);
                    }
                }
                res
            },
        }
    }
}

} // verus!
