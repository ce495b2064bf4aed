//! Listeners: the handlers a user registers for what the client receives,
//! and the read-only view of them that the event loop consults.
use vstd::prelude::*;

use crate::client::errors::{TGError, TGResult};
use crate::strmap::{assoc_get, assoc_insert, lemma_insert_get, lemma_insert_get_other, StrMap};

verus! {

broadcast use vstd::string::group_string_axioms;

/// The names of a list of strings.
pub open spec fn names_view(v: Seq<String>) -> Seq<Seq<char>> {
    v.map_values(|s: String| s@)
}

/// What a `Listener` holds.
pub struct ListenerV<E, H> {
    pub exception: Option<E>,
    pub receive: Option<H>,
    pub ok: Option<H>,
    pub error: Option<H>,
    pub updates: Seq<(Seq<char>, H)>,
}

/// The handlers of the client: one for exceptions, one for every received
/// update, one for `ok` and one for `error` results, and one per update type,
/// by the type's name.
pub struct Listener<E, H> {
    exception: Option<E>,
    receive: Option<H>,
    ok: Option<H>,
    error: Option<H>,
    updates: StrMap<H>,
}

impl<E, H> View for Listener<E, H> {
    type V = ListenerV<E, H>;

    closed spec fn view(&self) -> ListenerV<E, H> {
        ListenerV {
            exception: self.exception,
            receive: self.receive,
            ok: self.ok,
            error: self.error,
            updates: self.updates@,
        }
    }
}

impl<E, H> Listener<E, H> {
    /// A listener with no handler.
    pub fn new() -> (res: Self)
        ensures
            res@ == (ListenerV::<E, H> {
                exception: None,
                receive: None,
                ok: None,
                error: None,
                updates: Seq::empty(),
            }),
    {
        Listener { exception: None, receive: None, ok: None, error: None, updates: StrMap::new() }
    }

    /// Whether a handler for received updates is set.
    pub fn has_receive_listen(&self) -> (res: bool)
        ensures
            res == self@.receive is Some,
    {
        self.receive.is_some()
    }

    /// Sets the handler of every received update.
    pub fn on_receive(&mut self, fnc: H) -> (res: &mut Self)
        ensures
            res@ == (ListenerV { receive: Some(fnc), ..old(self)@ }),
            *final(self) == *final(res),
    {
        self.receive = Some(fnc);
        self
    }

    /// Sets the handler of exceptions.
    pub fn on_exception(&mut self, fnc: E) -> (res: &mut Self)
        ensures
            res@ == (ListenerV { exception: Some(fnc), ..old(self)@ }),
            *final(self) == *final(res),
    {
        self.exception = Some(fnc);
        self
    }

    /// Sets the handler of `ok` results.
    pub fn on_ok(&mut self, fnc: H) -> (res: &mut Self)
        ensures
            res@ == (ListenerV { ok: Some(fnc), ..old(self)@ }),
            *final(self) == *final(res),
    {
        self.ok = Some(fnc);
        self
    }

    /// Sets the handler of `error` results.
    pub fn on_error(&mut self, fnc: H) -> (res: &mut Self)
        ensures
            res@ == (ListenerV { error: Some(fnc), ..old(self)@ }),
            *final(self) == *final(res),
    {
        self.error = Some(fnc);
        self
    }

    /// Sets the handler of the updates of type `name`.
    pub fn on_(&mut self, name: String, fnc: H) -> (res: &mut Self)
        ensures
            res@ == (ListenerV { updates: assoc_insert(old(self)@.updates, name@, fnc), ..old(self)@ }),
            *final(self) == *final(res),
    {
        self.updates.insert(name, fnc);
        self
    }

    /// The read-only view of these handlers, for the update types `supports`.
    pub fn lout(self, supports: Vec<String>) -> (res: Lout<E, H>)
        ensures
            res.listener_spec() == self@,
            res.supports_spec() == names_view(supports@),
    {
        Lout::new(self, supports)
    }
}

/// The handlers of a listener, as the event loop reads them, with the update
/// types the client supports.
pub struct Lout<E, H> {
    listener: Listener<E, H>,
    supports: Vec<String>,
}

impl<E, H> Lout<E, H> {
    /// The handlers held.
    pub closed spec fn listener_spec(&self) -> ListenerV<E, H> {
        self.listener@
    }

    /// The supported update types.
    pub closed spec fn supports_spec(&self) -> Seq<Seq<char>> {
        names_view(self.supports@)
    }

    /// The view of `listener` for the update types `supports`.
    pub fn new(listener: Listener<E, H>, supports: Vec<String>) -> (res: Self)
        ensures
            res.listener_spec() == listener@,
            res.supports_spec() == names_view(supports@),
    {
        Lout { listener, supports }
    }

    /// Whether `name` is a supported update type.
    pub fn is_support(&self, name: &str) -> (res: bool)
        ensures
            res == self.supports_spec().contains(name@),
    {
        supports_name(&self.supports, name)
    }

    /// The handler of exceptions.
    pub fn exception(&self) -> (res: &Option<E>)
        ensures
            *res == self.listener_spec().exception,
    {
        &self.listener.exception
    }

    /// The handler of every received update.
    pub fn receive(&self) -> (res: &Option<H>)
        ensures
            *res == self.listener_spec().receive,
    {
        &self.listener.receive
    }

    /// The handler of `ok` results.
    pub fn ok(&self) -> (res: &Option<H>)
        ensures
            *res == self.listener_spec().ok,
    {
        &self.listener.ok
    }

    /// The handler of `error` results.
    pub fn error(&self) -> (res: &Option<H>)
        ensures
            *res == self.listener_spec().error,
    {
        &self.listener.error
    }

    /// The handler of the updates of type `name`.
    pub fn update(&self, name: &str) -> (res: Option<&H>)
        ensures
            match assoc_get(self.listener_spec().updates, name@) {
                Some(h) => res matches Some(r) && *r == h,
                None => res is None,
            },
    {
        self.listener.updates.get(name)
    }
}

/// Whether `names` holds `name`.
pub fn supports_name(names: &Vec<String>, name: &str) -> (res: bool)
    ensures
        res == names_view(names@).contains(name@),
{
    let wanted = name.to_string();
    let mut i: usize = 0;
    while i < names.len()
        invariant
            wanted@ == name@,
            i <= names@.len(),
            forall|j: int| 0 <= j < i ==> names@[j]@ != name@,
        decreases names@.len() - i,
    {
        if names[i] == wanted {
            proof {
                assert(names_view(names@)[i as int] == name@);
            }
            return true;
        }
        i += 1;
    }
    proof {
        if names_view(names@).contains(name@) {
            let k = choose|k: int| 0 <= k < names_view(names@).len() && names_view(names@)[k] == name@;
            assert(names@[k]@ == name@);
        }
    }
    false
}


/// What an `EventListener` holds.
pub struct EventListenerV<E, R, H> {
    pub exception: Option<E>,
    pub receive: Option<R>,
    pub handlers: Seq<(Seq<char>, H)>,
}

/// The handlers of the event client: one for exceptions, one for every
/// received text, and one per TDLib type, by the type's name.
pub struct EventListener<E, R, H> {
    exception: Option<E>,
    receive: Option<R>,
    handlers: StrMap<H>,
}

impl<E, R, H> View for EventListener<E, R, H> {
    type V = EventListenerV<E, R, H>;

    closed spec fn view(&self) -> EventListenerV<E, R, H> {
        EventListenerV { exception: self.exception, receive: self.receive, handlers: self.handlers@ }
    }
}

impl<E, R, H> EventListener<E, R, H> {
    /// A listener with no handler.
    pub fn new() -> (res: Self)
        ensures
            res@ == (EventListenerV::<E, R, H> { exception: None, receive: None, handlers: Seq::empty() }),
    {
        EventListener { exception: None, receive: None, handlers: StrMap::new() }
    }

    /// Whether a handler for received texts is set.
    pub fn has_receive_listen(&self) -> (res: bool)
        ensures
            res == self@.receive is Some,
    {
        self.receive.is_some()
    }

    /// Sets the handler of every received text.
    pub fn on_receive(&mut self, fnc: R) -> (res: &mut Self)
        ensures
            res@ == (EventListenerV { receive: Some(fnc), ..old(self)@ }),
            *final(self) == *final(res),
    {
        self.receive = Some(fnc);
        self
    }

    /// Sets the handler of exceptions.
    pub fn on_exception(&mut self, fnc: E) -> (res: &mut Self)
        ensures
            res@ == (EventListenerV { exception: Some(fnc), ..old(self)@ }),
            *final(self) == *final(res),
    {
        self.exception = Some(fnc);
        self
    }

    /// Sets the handler of the objects of TDLib type `name`.
    pub fn on_(&mut self, name: String, fnc: H) -> (res: &mut Self)
        ensures
            res@ == (EventListenerV { handlers: assoc_insert(old(self)@.handlers, name@, fnc), ..old(self)@ }),
            *final(self) == *final(res),
    {
        self.handlers.insert(name, fnc);
        self
    }

    /// The read-only view of these handlers, for the TDLib types `supports`.
    pub fn lout(self, supports: Vec<String>) -> (res: EventLout<E, R, H>)
        ensures
            res.listener_spec() == self@,
            res.supports_spec() == names_view(supports@),
    {
        EventLout::new(self, supports)
    }
}

/// The result of a typed handler, with what it returned replaced by `true`.
pub open spec fn handled(r: TGResult<()>) -> TGResult<bool> {
    match r {
        Ok(_) => Ok(true),
        Err(e) => Err(e),
    }
}

/// The handlers of an event listener, as the event loop reads them, with the
/// TDLib types the client supports.
pub struct EventLout<E, R, H> {
    listener: EventListener<E, R, H>,
    supports: Vec<String>,
}

impl<E, R, H> EventLout<E, R, H> {
    /// The handlers held.
    pub closed spec fn listener_spec(&self) -> EventListenerV<E, R, H> {
        self.listener@
    }

    /// The supported TDLib types.
    pub closed spec fn supports_spec(&self) -> Seq<Seq<char>> {
        names_view(self.supports@)
    }

    /// The view of `listener` for the TDLib types `supports`.
    pub fn new(listener: EventListener<E, R, H>, supports: Vec<String>) -> (res: Self)
        ensures
            res.listener_spec() == listener@,
            res.supports_spec() == names_view(supports@),
    {
        EventLout { listener, supports }
    }

    /// Whether `name` is a supported TDLib type.
    pub fn is_support(&self, name: &str) -> (res: bool)
        ensures
            res == self.supports_spec().contains(name@),
    {
        supports_name(&self.supports, name)
    }

    /// The handler of exceptions.
    pub fn exception(&self) -> (res: &Option<E>)
        ensures
            *res == self.listener_spec().exception,
    {
        &self.listener.exception
    }

    /// The handler of every received text.
    pub fn receive(&self) -> (res: &Option<R>)
        ensures
            *res == self.listener_spec().receive,
    {
        &self.listener.receive
    }

    /// The handler of the objects of TDLib type `name`.
    pub fn handler(&self, name: &str) -> (res: Option<&H>)
        ensures
            match assoc_get(self.listener_spec().handlers, name@) {
                Some(h) => res matches Some(r) && *r == h,
                None => res is None,
            },
    {
        self.listener.handlers.get(name)
    }

    /// Starts the handler of TDLib type `name` on `value` and gives back what
    /// it returned (for the asynchronous client, the future to await); none
    /// when no handler is set.
    pub fn start_type<A, P, O>(&self, api: &A, name: &str, value: &P) -> (res: Option<O>)
        where
            H: Fn((&A, &P)) -> O,
        requires
            assoc_get(self.listener_spec().handlers, name@) matches Some(h) ==> call_requires(h, ((api, value),)),
        ensures
            assoc_get(self.listener_spec().handlers, name@) is None ==> res is None,
            assoc_get(self.listener_spec().handlers, name@) matches Some(h) ==> (res matches Some(o) && call_ensures(
                h,
                ((api, value),),
                o,
            )),
    {
        match self.listener.handlers.get(name) {
            None => None,
            Some(f) => Some(f((api, value))),
        }
    }

    /// Hands `value`, an object of TDLib type `name`, to its handler:
    /// `Ok(false)` when none is set, else what the handler returned, with
    /// `true` for success.
    pub fn handle_type<A, P>(&self, api: &A, name: &str, value: &P) -> (res: TGResult<bool>)
        where
            H: Fn((&A, &P)) -> TGResult<()>,
        requires
            assoc_get(self.listener_spec().handlers, name@) matches Some(h) ==> call_requires(h, ((api, value),)),
        ensures
            assoc_get(self.listener_spec().handlers, name@) is None ==> res == Ok::<bool, TGError>(false),
            assoc_get(self.listener_spec().handlers, name@) matches Some(h) ==> exists|r: TGResult<()>|
                call_ensures(h, ((api, value),), r) && res == handled(r),
    {
        match self.listener.handlers.get(name) {
            None => Ok(false),
            Some(f) => {
                let r = f((api, value));
                let ghost rv = r;
                let res = match r {
                    Ok(_) => Ok(true),
                    Err(e) => Err(e),
                };
                assert(call_ensures(*f, ((api, value),), rv) && res == handled(rv));
                res
            },
        }
    }
}

/// The listener of the asynchronous client: an event listener whose
/// handlers give futures.
pub type RasyncListener<E, R, H> = EventListener<E, R, H>;

/// The handlers of the asynchronous client, as its event loop reads them.
pub type RasyncLout<E, R, H> = EventLout<E, R, H>;

/// A handler set under a name is the one read under that name; the
/// handlers of other names are unchanged.
pub proof fn lemma_on_then_read<H>(handlers: Seq<(Seq<char>, H)>, name: Seq<char>, h: H, other: Seq<char>)
    ensures
        assoc_get(assoc_insert(handlers, name, h), name) == Some(h),
        other != name ==> assoc_get(assoc_insert(handlers, name, h), other) == assoc_get(handlers, other),
{
    lemma_insert_get(handlers, name, h);
    if other != name {
        lemma_insert_get_other(handlers, name, h, other);
    }
}

} // verus!
