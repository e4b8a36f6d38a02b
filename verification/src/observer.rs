//! The observer of a progress tree.

use std::sync::mpsc::Sender;
use vstd::prelude::*;
use vstd::std_specs::convert::FromSpecImpl;
use crate::event::Event;

verus! {

/// Types for observing the events of a progress tree.
///
/// An observer is a sink: it returns nothing, and what it does with an event
/// is its own affair.
pub trait Observer {
    /// Observes an event emitted by a progress.
    fn observe(&self, event: Event);
}

/// An observer that drops every event.
#[derive(Clone, Copy, Debug, Default)]
pub struct NopObserver;

impl Observer for NopObserver {
    fn observe(&self, event: Event) {
    }
}

/// The sending half of a channel of the standard library.
#[verifier::external_type_specification]
#[verifier::external_body]
#[verifier::reject_recursive_types(T)]
pub struct ExSender<T>(Sender<T>);

/// `Sender::clone` of the standard library: another sending half of the same
/// channel. Nothing is claimed of it.
pub assume_specification<T>[ <Sender<T> as Clone>::clone ](sender: &Sender<T>) -> Sender<T>;

/// Calls `Sender::send` of the standard library, and drops what it returns.
///
/// Trusted: the call returns. Nothing is claimed of where the event goes: a
/// channel whose receiver is gone takes the event and loses it.
#[verifier::external_body]
fn send(sender: &Sender<Event>, event: Event) {
    let _ = sender.send(event);
}

/// Implementation of `Observer` based on `std::sync::mpsc::Sender`: every
/// event is sent into the channel.
#[derive(Clone, Debug)]
pub struct StdMpscObserver {
    /// The sending-half of std's channel type.
    pub sender: Sender<Event>,
}

impl From<Sender<Event>> for StdMpscObserver {
    fn from(sender: Sender<Event>) -> (observer: StdMpscObserver) {
        StdMpscObserver { sender }
    }
}

impl FromSpecImpl<Sender<Event>> for StdMpscObserver {
    open spec fn obeys_from_spec() -> bool {
        true
    }

    open spec fn from_spec(sender: Sender<Event>) -> StdMpscObserver {
        StdMpscObserver { sender }
    }
}

impl From<StdMpscObserver> for Sender<Event> {
    fn from(observer: StdMpscObserver) -> (sender: Sender<Event>) {
        observer.sender
    }
}

impl FromSpecImpl<StdMpscObserver> for Sender<Event> {
    open spec fn obeys_from_spec() -> bool {
        true
    }

    open spec fn from_spec(observer: StdMpscObserver) -> Sender<Event> {
        observer.sender
    }
}

impl Observer for StdMpscObserver {
    fn observe(&self, event: Event) {
        send(&self.sender, event);
    }
}

/// Hands `events` to `observer`, one by one and in order.
pub fn notify<O: Observer>(observer: &O, events: Vec<Event>) {
    for event in events {
        observer.observe(event);
    }
}

} // verus!
