//! The observer: senders waiting for the response to a request, by the
//! request's `@extra` id.
use vstd::prelude::*;

use crate::client::rtd::RObject;
use crate::strmap::{
    assoc_get, assoc_insert, assoc_remove, keys_unique, lemma_insert_get, lemma_insert_get_other, lemma_insert_unique,
    lemma_remove_get, lemma_remove_get_other, lemma_remove_unique, StrMap,
};

verus! {

broadcast use vstd::string::group_string_axioms;

/// The senders of the responses awaited, each under the `@extra` id of its
/// request.
pub struct Observer<S> {
    channels: StrMap<S>,
}

impl<S> View for Observer<S> {
    type V = Seq<(Seq<char>, S)>;

    closed spec fn view(&self) -> Seq<(Seq<char>, S)> {
        self.channels@
    }
}

impl<S> Observer<S> {
    /// No id is subscribed twice.
    #[verifier::type_invariant]
    spec fn wf(&self) -> bool {
        keys_unique(self.channels@)
    }

    /// An observer that awaits nothing.
    pub fn new() -> (res: Self)
        ensures
            res@ == Seq::<(Seq<char>, S)>::empty(),
    {
        Observer { channels: StrMap::new() }
    }

    /// The sender of the response with id `extra`, if one is awaited; none
    /// for a response without an id.
    pub fn notify_extra(&self, extra: Option<&str>) -> (res: Option<&S>)
        ensures
            match extra {
                Some(x) => match assoc_get(self@, x@) {
                    Some(s) => res matches Some(r) && *r == s,
                    None => res is None,
                },
                None => res is None,
            },
    {
        match extra {
            Some(x) => self.channels.get(x),
            None => None,
        }
    }

    /// The sender of `payload`, by the id the payload carries, if one is
    /// awaited.
    pub fn notify<P: RObject>(&self, payload: &P) -> (res: Option<&S>)
        ensures
            res matches Some(r) ==> exists|k: Seq<char>| assoc_get(self@, k) == Some(*r),
    {
        let extra = payload.extra();
        match extra {
            Some(x) => {
                let r = self.notify_extra(Some(x.as_str()));
                proof {
                    if r is Some {
                        assert(assoc_get(self@, x@) == Some(*r.unwrap()));
                    }
                }
                r
            },
            None => None,
        }
    }

    /// Awaits the response with id `extra` on `sender`, in place of any
    /// sender that awaited it before.
    pub fn subscribe(&mut self, extra: String, sender: S)
        ensures
            final(self)@ == assoc_insert(old(self)@, extra@, sender),
            assoc_get(final(self)@, extra@) == Some(sender),
    {
        proof {
            use_type_invariant(&*self);
            lemma_insert_unique(self@, extra@, sender);
            lemma_insert_get(self@, extra@, sender);
        }
        let mut channels = StrMap::new();
        std::mem::swap(&mut channels, &mut self.channels);
        channels.insert(extra, sender);
        self.channels = channels;
    }

    /// Stops awaiting the response with id `extra`.
    pub fn unsubscribe(&mut self, extra: &str)
        ensures
            final(self)@ == assoc_remove(old(self)@, extra@),
            assoc_get(final(self)@, extra@) is None,
    {
        proof {
            use_type_invariant(&*self);
            lemma_remove_unique(self@, extra@);
            lemma_remove_get(self@, extra@);
        }
        let mut channels = StrMap::new();
        std::mem::swap(&mut channels, &mut self.channels);
        channels.remove(extra);
        self.channels = channels;
    }
}

/// A response goes to the sender that subscribed last under its id; the
/// senders of other ids are unchanged.
pub proof fn lemma_subscribe_then_notify<S>(o: Seq<(Seq<char>, S)>, extra: Seq<char>, sender: S, other: Seq<char>)
    ensures
        assoc_get(assoc_insert(o, extra, sender), extra) == Some(sender),
        other != extra ==> assoc_get(assoc_insert(o, extra, sender), other) == assoc_get(o, other),
{
    lemma_insert_get(o, extra, sender);
    if other != extra {
        lemma_insert_get_other(o, extra, sender, other);
    }
}

/// Once an id is unsubscribed, its response goes to no sender; the senders
/// of other ids are unchanged.
pub proof fn lemma_unsubscribe_then_notify<S>(o: Seq<(Seq<char>, S)>, extra: Seq<char>, other: Seq<char>)
    requires
        keys_unique(o),
    ensures
        assoc_get(assoc_remove(o, extra), extra) is None,
        other != extra ==> assoc_get(assoc_remove(o, extra), other) == assoc_get(o, other),
{
    lemma_remove_get(o, extra);
    if other != extra {
        lemma_remove_get_other(o, extra, other);
    }
}

} // verus!
