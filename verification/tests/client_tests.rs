use std::cell::RefCell;
use std::rc::Rc;

use tl_fantasy::client::api::{async_result, Api, ApiBuilder, AsyncApi, AsyncReply, EventApi};
use tl_fantasy::client::errors::{RTDError, RTDResult, TGError, TGResult};
use tl_fantasy::client::handler::{HandleOutcome, Handler};
use tl_fantasy::client::listener::{supports_name, EventListener, EventLout, Listener, Lout, RasyncListener, RasyncLout};
use tl_fantasy::client::observer::Observer;
use tl_fantasy::client::rtd::{detect_td_type, RFunction, RObject};
use tl_fantasy::client::types::TGException;

const PARAMS: &str = r#"{"@type":"setTdlibParameters","parameters":{"api_id":12345,"api_hash":"0123abcd","use_test_dc":false}}"#;
const MASKED: &str = r#"{"@type":"setTdlibParameters","parameters":{"api_id":"****","api_hash":"**********","use_test_dc":false}}"#;

#[derive(Debug)]
struct GetMe {
    extra: Option<String>,
}

impl RObject for GetMe {
    fn td_name(&self) -> &'static str {
        "getMe"
    }
    fn extra(&self) -> Option<String> {
        self.extra.clone()
    }
    fn to_json(&self) -> RTDResult<String> {
        Ok(r#"{"@type":"getMe"}"#.to_string())
    }
}

impl RFunction for GetMe {}

#[derive(Debug)]
struct Broken;

impl RObject for Broken {
    fn td_name(&self) -> &'static str {
        "broken"
    }
    fn extra(&self) -> Option<String> {
        None
    }
    fn to_json(&self) -> RTDResult<String> {
        Err(RTDError::custom("cannot write".to_string()))
    }
}

impl RFunction for Broken {}

#[test]
fn log_masks_api_id_and_hash() {
    let api = Api::new(());
    let req = api.send_json(PARAMS.to_string()).unwrap();
    assert_eq!(req.json, PARAMS);
    assert_eq!(req.log, Some(format!("===> {}", MASKED)));
    let exe = api.execute_json(PARAMS.to_string()).unwrap();
    assert_eq!(exe.log, Some(format!("===>>> {}", MASKED)));
}

#[test]
fn unsafe_log_shows_the_text() {
    let mut b = Api::builder(());
    b.unsafe_log(true);
    let api = b.build();
    let req = api.send_json(PARAMS.to_string()).unwrap();
    assert_eq!(req.log, Some(format!("===> {}", PARAMS)));
}

#[test]
fn no_log_when_logging_is_off() {
    let mut b = ApiBuilder::new(());
    b.log(false).unsafe_log(true);
    let api = b.build();
    let req = api.send_json(PARAMS.to_string()).unwrap();
    assert_eq!(req.json, PARAMS);
    assert_eq!(req.log, None);
    assert_eq!(api.log_line("x ", &PARAMS.to_string()).unwrap(), None);
    assert_eq!(api.receive_log(&Some(PARAMS.to_string())).unwrap(), None);
}

#[test]
fn receive_log_line() {
    let api = Api::new(7u32);
    assert_eq!(api.receive_log(&None).unwrap(), None);
    assert_eq!(api.receive_log(&Some(PARAMS.to_string())).unwrap(), Some(format!("<=== {}", MASKED)));
    assert_eq!(*api.tdlib(), 7u32);
}

#[test]
fn text_without_secrets_is_logged_unchanged() {
    let api = Api::new(());
    let text = r#"{"@type":"getMe"}"#.to_string();
    assert_eq!(api.log_line("> ", &text).unwrap(), Some(format!("> {}", text)));
}

#[test]
fn send_and_execute_functions() {
    let api = Api::new(());
    let req = api.send(&GetMe { extra: None }).unwrap();
    assert_eq!(req.json, r#"{"@type":"getMe"}"#);
    assert_eq!(req.log, Some(r#"===> {"@type":"getMe"}"#.to_string()));
    let exe = api.execute(&GetMe { extra: None }).unwrap();
    assert_eq!(exe.log, Some(r#"===>>> {"@type":"getMe"}"#.to_string()));
    assert!(matches!(api.send(&Broken), Err(RTDError::Custom(m)) if m == "cannot write"));
    assert!(api.execute(&Broken).is_err());
}

#[test]
fn front_apis_hold_the_api() {
    let api = Api::new("handle".to_string());
    let a = AsyncApi::new(api.clone());
    assert_eq!(a.api().tdlib(), "handle");
    let e = EventApi::new(api);
    assert_eq!(e.api().tdlib(), "handle");
}

#[test]
fn errors_keep_key_and_message() {
    let e = TGError::new("EVENT_HANDLER_ERROR");
    assert_eq!(e.key(), "EVENT_HANDLER_ERROR");
    assert_eq!(e.message(), &None);
    let e = e.with_message("boom".to_string());
    assert_eq!(e.message(), &Some("boom".to_string()));
    let x = TGException::new("{}", RTDError::custom("bad".to_string()));
    assert_eq!(x.json(), "{}");
    assert!(matches!(x.e(), RTDError::Custom(m) if m == "bad"));
}

#[test]
fn detect_type() {
    let json = r#"{"@type":"updateOption","@extra":"42","name":"version"}"#;
    assert_eq!(detect_td_type(json), Some("updateOption".to_string()));
    assert_eq!(detect_td_type(r#"{"@type":"ok"}"#), Some("ok".to_string()));
    assert_eq!(detect_td_type(r#"{"@type":3}"#), None);
    assert_eq!(detect_td_type("not json"), None);
    assert_eq!(detect_td_type("[1,2]"), None);
}

#[test]
fn listener_reads_back_what_was_set() {
    let mut l: Listener<&str, &str> = Listener::new();
    assert!(!l.has_receive_listen());
    l.on_receive("r").on_exception("x").on_ok("o").on_error("e");
    l.on_("updateOption".to_string(), "u1");
    l.on_("updateOption".to_string(), "u2");
    assert!(l.has_receive_listen());
    let lout: Lout<&str, &str> = l.lout(vec!["updateOption".to_string(), "updateUser".to_string()]);
    assert_eq!(lout.receive(), &Some("r"));
    assert_eq!(lout.exception(), &Some("x"));
    assert_eq!(lout.ok(), &Some("o"));
    assert_eq!(lout.error(), &Some("e"));
    assert_eq!(lout.update("updateOption"), Some(&"u2"));
    assert_eq!(lout.update("updateUser"), None);
    assert!(lout.is_support("updateUser"));
    assert!(!lout.is_support("updateChat"));
}

#[test]
fn lout_new_without_handlers() {
    let lout: Lout<u8, u8> = Lout::new(Listener::new(), vec![]);
    assert_eq!(lout.receive(), &None);
    assert!(!lout.is_support("anything"));
    assert!(supports_name(&vec!["a".to_string()], "a"));
    assert!(!supports_name(&vec!["a".to_string()], "b"));
}

type Exc = Box<dyn Fn((&(), &TGError))>;
type Recv = Box<dyn Fn((&(), &String)) -> TGResult<()>>;
type Typed = Box<dyn Fn((&(), &i32)) -> TGResult<()>>;

#[test]
fn handle_type_dispatches_by_name() {
    let mut l: EventListener<Exc, Recv, Typed> = EventListener::new();
    l.on_("updateOption".to_string(), Box::new(|(_, v): (&(), &i32)| if *v > 0 { Ok(()) } else { Err(TGError::new("NEG")) }));
    let lout = l.lout(vec!["updateOption".to_string()]);
    assert!(lout.is_support("updateOption"));
    assert_eq!(lout.handle_type(&(), "updateOption", &1).unwrap(), true);
    assert_eq!(lout.handle_type(&(), "updateUser", &1).unwrap(), false);
    assert_eq!(lout.handle_type(&(), "updateOption", &-1).unwrap_err().key(), "NEG");
    assert!(lout.handler("updateOption").is_some());
    assert!(lout.exception().is_none());
    assert!(lout.receive().is_none());
}

fn event_lout(seen: &Rc<RefCell<Vec<String>>>, receive_fails: bool) -> EventLout<Exc, Recv, Typed> {
    let seen = seen.clone();
    let mut l: EventListener<Exc, Recv, Typed> = EventListener::new();
    l.on_exception(Box::new(move |(_, e): (&(), &TGError)| seen.borrow_mut().push(e.key().clone())));
    l.on_receive(Box::new(move |(_, _json): (&(), &String)| {
        if receive_fails {
            Err(TGError::new("RECEIVE_FAIL"))
        } else {
            Ok(())
        }
    }));
    l.on_("updateOption".to_string(), Box::new(|(_, v): (&(), &i32)| if *v > 0 { Ok(()) } else { Err(TGError::new("NEG")) }));
    l.lout(vec!["updateOption".to_string()])
}

fn new_seen() -> Rc<RefCell<Vec<String>>> {
    Rc::new(RefCell::new(Vec::new()))
}

fn keys(raised: &Vec<TGError>) -> Vec<String> {
    raised.iter().map(|e| e.key().clone()).collect()
}

#[test]
fn handle_drops_text_without_type() {
    let seen = new_seen();
    let lout = event_lout(&seen, true);
    let h = Handler::new(&(), &lout, true);
    let r = h.handle(&r#"{"name":"x"}"#.to_string(), Ok(1));
    assert_eq!(r.outcome, HandleOutcome::Undetected);
    assert!(r.raised.is_empty());
    assert_eq!(r.notify, None);
    assert!(!r.warn_unregistered);
    assert!(seen.borrow().is_empty());
}

#[test]
fn handle_gives_value_to_its_handler() {
    let lout = event_lout(&new_seen(), false);
    let h = Handler::new(&(), &lout, true);
    let r = h.handle(&r#"{"@type":"updateOption","@extra":"9"}"#.to_string(), Ok(5));
    assert_eq!(r.outcome, HandleOutcome::Handled);
    assert!(r.raised.is_empty());
    assert_eq!(r.notify, None);
}

#[test]
fn handle_reports_failing_handlers() {
    let seen = new_seen();
    let lout = event_lout(&seen, true);
    let h = Handler::new(&(), &lout, false);
    let r = h.handle(&r#"{"@type":"updateOption","@extra":"9"}"#.to_string(), Ok(-5));
    assert_eq!(r.outcome, HandleOutcome::Failed);
    assert_eq!(keys(&r.raised), vec!["RECEIVE_FAIL", "EVENT_HANDLER_ERROR"]);
    assert_eq!(r.notify, Some("9".to_string()));
    assert_eq!(*seen.borrow(), vec!["RECEIVE_FAIL", "EVENT_HANDLER_ERROR"]);
}

#[test]
fn handle_without_handler_notifies_and_warns() {
    let lout = event_lout(&new_seen(), false);
    let h = Handler::new(&(), &lout, true);
    let r = h.handle(&r#"{"@type":"updateUser","@extra":"3"}"#.to_string(), Ok(1));
    assert_eq!(r.outcome, HandleOutcome::Unhandled);
    assert!(r.warn_unregistered);
    assert_eq!(r.notify, Some("3".to_string()));
    let quiet = Handler::new(&(), &lout, false);
    let r = quiet.handle(&r#"{"@type":"updateUser"}"#.to_string(), Ok(1));
    assert!(!r.warn_unregistered);
    assert_eq!(r.notify, None);
}

#[test]
fn handle_unreadable_value() {
    let lout = event_lout(&new_seen(), false);
    let h = Handler::new(&(), &lout, true);
    let r = h.handle(&r#"{"@type":"updateOption"}"#.to_string(), Err::<i32, RTDError>(RTDError::custom("bad".to_string())));
    assert_eq!(r.outcome, HandleOutcome::Unreadable);
    assert_eq!(keys(&r.raised), vec!["DESERIALIZE_JSON_FAIL"]);
    assert_eq!(r.notify, None);
}

#[test]
fn handle_without_exception_handler_raises_nothing() {
    let mut l: EventListener<Exc, Recv, Typed> = EventListener::new();
    l.on_("updateOption".to_string(), Box::new(|_: (&(), &i32)| Err::<(), TGError>(TGError::new("NO"))));
    let lout = l.lout(vec![]);
    let h = Handler::new(&(), &lout, true);
    let r = h.handle(&r#"{"@type":"updateOption"}"#.to_string(), Ok(1));
    assert_eq!(r.outcome, HandleOutcome::Failed);
    assert!(r.raised.is_empty());
}

#[test]
fn observer_subscribe_notify_unsubscribe() {
    let mut o: Observer<u32> = Observer::new();
    o.subscribe("1".to_string(), 10);
    o.subscribe("2".to_string(), 20);
    o.subscribe("1".to_string(), 11);
    assert_eq!(o.notify_extra(Some("1")), Some(&11));
    assert_eq!(o.notify_extra(Some("2")), Some(&20));
    assert_eq!(o.notify_extra(None), None);
    assert_eq!(o.notify(&GetMe { extra: Some("2".to_string()) }), Some(&20));
    assert_eq!(o.notify(&GetMe { extra: None }), None);
    o.unsubscribe("1");
    assert_eq!(o.notify_extra(Some("1")), None);
    assert_eq!(o.notify_extra(Some("2")), Some(&20));
    o.unsubscribe("7");
    assert_eq!(o.notify_extra(Some("2")), Some(&20));
}

#[test]
fn handle_reads_only_string_request_ids() {
    let lout = event_lout(&new_seen(), false);
    let h = Handler::new(&(), &lout, true);
    let r = h.handle(&r#"{"@type":"updateUser","@extra":5}"#.to_string(), Ok(1));
    assert_eq!(r.outcome, HandleOutcome::Unhandled);
    assert_eq!(r.notify, None);
    let r = h.handle(&"not json".to_string(), Ok(1));
    assert_eq!(r.outcome, HandleOutcome::Undetected);
}

#[test]
fn awaited_call_needs_a_request_id() {
    let a = AsyncApi::new(Api::new(()));
    assert_eq!(a.call_extra(&GetMe { extra: Some("17".to_string()) }).unwrap(), "17");
    match a.call_extra(&GetMe { extra: None }) {
        Err(RTDError::Custom(m)) => assert_eq!(m, "invalid tdjson response type, not have `extra` field"),
        _ => panic!("expected an error"),
    }
}

#[test]
fn awaited_call_results() {
    assert_eq!(async_result(AsyncReply::Expected(5)).unwrap(), 5);
    match async_result::<i32>(AsyncReply::Error { code: 400, message: "Bad Request".to_string() }) {
        Err(RTDError::Custom(m)) => assert_eq!(m, "[400] Bad Request"),
        _ => panic!("expected an error"),
    }
    match async_result::<i32>(AsyncReply::Error { code: -5, message: "x".to_string() }) {
        Err(RTDError::Custom(m)) => assert_eq!(m, "[-5] x"),
        _ => panic!("expected an error"),
    }
    match async_result::<i32>(AsyncReply::Unexpected) {
        Err(RTDError::Custom(m)) => assert_eq!(m, "invalid tdjson response type, unexpected `extra` field"),
        _ => panic!("expected an error"),
    }
    assert!(async_result::<i32>(AsyncReply::Closed).is_err());
}

#[test]
fn async_handlers_are_started() {
    type Fut = Box<dyn Fn((&(), &i32)) -> Option<i32>>;
    let mut l: RasyncListener<Exc, Recv, Fut> = RasyncListener::new();
    l.on_("updateOption".to_string(), Box::new(|(_, v): (&(), &i32)| Some(*v * 2)));
    let lout: RasyncLout<Exc, Recv, Fut> = l.lout(vec!["updateOption".to_string()]);
    assert_eq!(lout.start_type(&(), "updateOption", &21), Some(Some(42)));
    assert_eq!(lout.start_type(&(), "updateUser", &21), None);
}

#[test]
fn written_function_results() {
    let api = Api::new(());
    let r = api.send_result(Err(RTDError::custom("no json".to_string())));
    assert!(matches!(r, Err(RTDError::Custom(m)) if m == "no json"));
    let r = api.send_result(Ok(PARAMS.to_string())).unwrap();
    assert_eq!(r.json, PARAMS);
    assert_eq!(r.log, Some(format!("===> {}", MASKED)));
    let r = api.execute_result(Ok(PARAMS.to_string())).unwrap();
    assert_eq!(r.log, Some(format!("===>>> {}", MASKED)));
    assert!(api.execute_result(Err(RTDError::custom("x".to_string()))).is_err());
}

#[test]
fn error_codes_in_decimal() {
    match async_result::<i32>(AsyncReply::Error { code: i32::MIN, message: "m".to_string() }) {
        Err(RTDError::Custom(m)) => assert_eq!(m, "[-2147483648] m"),
        _ => panic!("expected an error"),
    }
    match async_result::<i32>(AsyncReply::Error { code: 0, message: "z".to_string() }) {
        Err(RTDError::Custom(m)) => assert_eq!(m, "[0] z"),
        _ => panic!("expected an error"),
    }
}
