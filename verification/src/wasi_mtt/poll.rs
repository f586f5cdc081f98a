use crate::wasi_mtt::ctx::Context;
use crate::wasi_mtt::error::{Cause, Error, ErrorKind};
use crate::wasi_mtt::pledge::{permits, Promises};
use vstd::prelude::*;

verus! {

/// What an extension can wait for.
#[derive(Debug, Clone, PartialEq, Eq)]
pub enum SubscriptionInner {
    /// A named event that the host sends to the extension's window.
    SubscriptionWindowEvent(SubscriptionWindowEvent),
}

/// The name of the host event to wait for.
#[derive(Debug, Clone, PartialEq, Eq)]
pub struct SubscriptionWindowEvent {
    pub event: String,
}

/// One thing to wait for, and the number under which the extension will
/// recognise it.
#[derive(Debug, Clone, PartialEq, Eq)]
pub struct Subscription {
    pub userdata: u64,
    pub inner: SubscriptionInner,
}

/// What happened.
#[derive(Debug, Clone, Copy, PartialEq, Eq, Structural)]
pub enum EventInner {
    WindowEvent,
}

/// The answer to a poll: what happened, and the number of the subscription
/// that asked for it.
#[derive(Debug, Clone, Copy, PartialEq, Eq, Structural)]
pub struct Event {
    pub userdata: u64,
    pub inner: EventInner,
}

impl Subscription {
    /// The name of the host event that the subscription waits for.
    pub open spec fn spec_event_name(&self) -> Seq<char> {
        match self.inner {
            SubscriptionInner::SubscriptionWindowEvent(w) => w.event@,
        }
    }

    /// The event that answers this subscription.
    pub open spec fn spec_answer(&self) -> Event {
        match self.inner {
            SubscriptionInner::SubscriptionWindowEvent(_) => Event {
                userdata: self.userdata,
                inner: EventInner::WindowEvent,
            },
        }
    }

    /// The event that answers this subscription.
    pub fn answer(&self) -> (e: Event)
        ensures
            e == self.spec_answer(),
    {
        match &self.inner {
            SubscriptionInner::SubscriptionWindowEvent(_) => Event {
                userdata: self.userdata,
                inner: EventInner::WindowEvent,
            },
        }
    }
}

/// The names of the host events that `subs` wait for, in their order.
pub open spec fn event_names(subs: Seq<Subscription>) -> Seq<Seq<char>> {
    subs.map_values(|s: Subscription| s.spec_event_name())
}

impl Context {
    /// The first half of a poll: the names of the host events to listen
    /// for, one for each subscription and in their order. Needs the stdio
    /// permission, and fails with an invalid argument where there is
    /// nothing to wait for.
    pub fn oneoff(&mut self, subs: &Vec<Subscription>) -> (r: Result<Vec<String>, Error>)
        ensures
            *final(self) == *old(self),
            r.is_ok() <==> permits(old(self).promises, Promises::stdio()) && subs@.len() > 0,
            match r {
                Ok(names) => names@.map_values(|n: String| n@) == event_names(subs@),
                Err(e) => e.cause == if !permits(old(self).promises, Promises::stdio()) {
                    Cause::Kind(ErrorKind::Perm)
                } else {
                    Cause::Kind(ErrorKind::Inval)
                },
            },
    {
        self.require(Promises::stdio())?;
        if subs.len() == 0 {
            return Err(Error::from_cause(Cause::Kind(ErrorKind::Inval)));
        }
        let mut names: Vec<String> = Vec::new();
        let mut i: usize = 0;
        while i < subs.len()
            invariant
                i <= subs.len(),
                names@.len() == i,
                forall|j: int| 0 <= j < i ==> (#[trigger] names@[j])@ == subs@[j].spec_event_name(),
            decreases subs.len() - i,
        {
            let name = match &subs[i].inner {
                SubscriptionInner::SubscriptionWindowEvent(w) => w.event.clone(),
            };
            names.push(name);
            i += 1;
        }
        proof {
            assert(names@.map_values(|n: String| n@) =~= event_names(subs@));
        }
        Ok(names)
    }
}

/// The second half of a poll: the event to hand to the extension once the
/// listener of subscription number `fired` was the first to be called.
pub fn oneoff_event(subs: &Vec<Subscription>, fired: usize) -> (r: Option<Event>)
    ensures
        r == if fired < subs@.len() {
            Some(subs@[fired as int].spec_answer())
        } else {
            None
        },
{
    if fired < subs.len() {
        Some(subs[fired].answer())
    } else {
        None
    }
}

} // verus!
