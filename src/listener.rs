//! A bridge from the synchronous bus to one asynchronous consumer: messages
//! go into an unbounded queue whose receiving half can be taken once.
use vstd::prelude::*;
use vstd::string::StringSliceAdditionalSpecFns;

use bytes::Bytes;
use tokio::sync::mpsc::{UnboundedReceiver, UnboundedSender};

use crate::identifiers::intern;

verus! {

#[verifier::external_type_specification]
#[verifier::external_body]
#[verifier::reject_recursive_types(T)]
pub struct ExUnboundedSender<T>(tokio::sync::mpsc::UnboundedSender<T>);

#[verifier::external_type_specification]
#[verifier::external_body]
#[verifier::reject_recursive_types(T)]
pub struct ExUnboundedReceiver<T>(tokio::sync::mpsc::UnboundedReceiver<T>);

#[verifier::external_type_specification]
#[verifier::external_body]
pub struct ExBytes(bytes::Bytes);

/// Relies on `tokio::sync::mpsc::unbounded_channel`: a connected sender and
/// receiver; nothing is promised of them here.
pub assume_specification<T>[ tokio::sync::mpsc::unbounded_channel::<T> ]() -> (
    tokio::sync::mpsc::UnboundedSender<T>,
    tokio::sync::mpsc::UnboundedReceiver<T>,
);

/// Relies on `UnboundedSender::is_closed`: whether the receiving half is gone;
/// nothing is promised of the answer here.
pub assume_specification<T>[ tokio::sync::mpsc::UnboundedSender::<T>::is_closed ](
    tx: &tokio::sync::mpsc::UnboundedSender<T>,
) -> bool;

/// A message on a topic, with an opaque payload.
#[derive(Debug)]
pub struct BusMessage {
    pub topic: &'static str,
    pub payload: Bytes,
}

impl BusMessage {
    /// A message on `topic`, which must not be empty.
    pub fn new(topic: &str, payload: Bytes) -> (r: Self)
        requires
            topic@.len() > 0,
        ensures
            r.topic@ == topic@,
            r.payload == payload,
    {
        BusMessage { topic: intern(topic), payload }
    }

    /// `new` on a topic given as text.
    pub fn with_str_topic(topic: &str, payload: Bytes) -> (r: Self)
        requires
            topic@.len() > 0,
        ensures
            r.topic@ == topic@,
            r.payload == payload,
    {
        Self::new(topic, payload)
    }
}

/// Relies on `UnboundedSender::send`: it never blocks, and fails only when
/// the receiving half is closed, in which case the message is dropped here.
/// Says whether the message was queued; nothing is promised of the answer.
#[verifier::external_body]
fn enqueue(tx: &UnboundedSender<BusMessage>, message: BusMessage) -> (r: bool) {
    tx.send(message).is_ok()
}

/// The errors a listener reports.
#[derive(Clone, Copy, Debug, PartialEq, Eq, Structural)]
pub enum ListenerError {
    /// The receiving half was taken already, or the listener was closed.
    ReceiverTaken,
}

pub struct MessageBusListener {
    pub(crate) tx: UnboundedSender<BusMessage>,
    pub(crate) rx: Option<UnboundedReceiver<BusMessage>>,
    pub(crate) closed: bool,
}

impl MessageBusListener {
    /// The receiving half is still here to be taken.
    pub open(crate) spec fn receiver_available(&self) -> bool {
        self.rx is Some
    }

    /// `close` was called.
    pub open(crate) spec fn spec_closed(&self) -> bool {
        self.closed
    }

    /// A listener whose receiving half can be taken.
    pub fn new() -> (r: Self)
        ensures
            r.receiver_available(),
            !r.spec_closed(),
    {
        let (tx, rx) = tokio::sync::mpsc::unbounded_channel::<BusMessage>();
        MessageBusListener { tx, rx: Some(rx), closed: false }
    }

    /// Whether nothing published from now on can reach a consumer. True once
    /// `close` was called; otherwise true when the consumer dropped its half.
    pub fn is_closed(&self) -> (r: bool)
        ensures
            self.spec_closed() ==> r,
    {
        self.closed || self.tx.is_closed()
    }

    /// Drops the receiving half if it was not taken, and swaps in a sender
    /// with no receiver: later publishes are accepted and discarded.
    pub fn close(&mut self)
        ensures
            final(self).spec_closed(),
            !final(self).receiver_available(),
    {
        self.rx = None;
        let (tx, _rx) = tokio::sync::mpsc::unbounded_channel::<BusMessage>();
        self.tx = tx;
        self.closed = true;
    }

    /// Queues a message for the consumer without blocking, and says whether
    /// it was queued. After `close` nothing is queued.
    pub fn publish(&self, topic: &str, payload: Bytes) -> (r: bool)
        requires
            topic@.len() > 0,
        ensures
            self.spec_closed() ==> !r,
    {
        if self.closed {
            return false;
        }
        enqueue(&self.tx, BusMessage::new(topic, payload))
    }

    /// Hands out the receiving half; there is one, so a second call fails.
    pub fn get_stream_receiver(&mut self) -> (r: Result<UnboundedReceiver<BusMessage>, ListenerError>)
        ensures
            r is Ok <==> old(self).receiver_available(),
            r is Err ==> r->Err_0 == ListenerError::ReceiverTaken,
            !final(self).receiver_available(),
            final(self).spec_closed() == old(self).spec_closed(),
    {
        match self.rx.take() {
            Some(rx) => Ok(rx),
            None => Err(ListenerError::ReceiverTaken),
        }
    }
}

} // verus!
