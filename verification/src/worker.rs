//! The protocol of one connection worker.
//!
//! A worker serves one connection: it completes the handshake, then reads
//! frame after frame and reports what it finds to the coordinator. It never
//! touches the registry. This module holds the worker's decisions; the
//! caller does the reading and hands the events on, in the order in which
//! they were emitted.
//!
//! Over its life a worker emits `Connected` once, then a `Text` for every
//! frame that holds text, then `Disconnected` once, at its first failed
//! read. A worker whose handshake fails emits nothing at all.

use crate::server::{Event, Message};
use crate::stream::{delivery, EncryptedStream, HandshakeError, RecvError};
use vstd::prelude::*;

verus! {

/// Where a worker stands.
#[derive(Debug)]
pub enum Worker {
    /// The handshake is not done yet.
    Handshaking,
    /// The handshake is done; frames are read through the stream.
    Running(EncryptedStream),
    /// The worker has ended and emits nothing any more.
    Done,
}

/// What the transport brought a worker, as contracts see it.
pub enum Input {
    /// The handshake ended, with a stream or with a failure.
    Handshake(Result<EncryptedStream, HandshakeError>),
    /// One read delivered these bytes.
    Frame(Seq<u8>),
    /// A read failed.
    ReadFailure,
}

/// The worker after `input`, and the event that it emits on it, if any.
pub open spec fn step(worker: Worker, input: Input) -> (Worker, Option<Event>) {
    match worker {
        Worker::Handshaking => match input {
            Input::Handshake(Ok(stream)) => (
                Worker::Running(stream),
                Some(Event::Connected(stream)),
            ),
            _ => (Worker::Done, None),
        },
        Worker::Running(stream) => match input {
            Input::Handshake(_) => (worker, None),
            Input::Frame(raw) => match stream.received(raw) {
                Ok(Some(text)) => (worker, Some(Event::Text(text))),
                Ok(None) => (worker, None),
                Err(_) => (Worker::Done, Some(Event::Disconnected)),
            },
            Input::ReadFailure => (Worker::Done, Some(Event::Disconnected)),
        },
        Worker::Done => (Worker::Done, None),
    }
}

/// The events that a worker emits, in order, while it is fed `inputs`.
pub open spec fn emitted(worker: Worker, inputs: Seq<Input>) -> Seq<Event>
    decreases inputs.len(),
{
    if inputs.len() == 0 {
        Seq::empty()
    } else {
        let (next, event) = step(worker, inputs[0]);
        let rest = emitted(next, inputs.drop_first());
        match event {
            Some(e) => seq![e] + rest,
            None => rest,
        }
    }
}

/// Texts only, but for a `Disconnected` that may stand at the very end.
pub open spec fn texts_then_end(events: Seq<Event>) -> bool {
    forall|i: int|
        0 <= i < events.len() ==> (#[trigger] events[i]) is Text || (events[i] is Disconnected && i
            == events.len() - 1)
}

/// The order in which one connection's events reach the coordinator:
/// nothing at all, or `Connected` first, then texts, then at most one
/// `Disconnected`, which is last.
pub open spec fn well_ordered(events: Seq<Event>) -> bool {
    events.len() > 0 ==> events[0] is Connected && texts_then_end(events.drop_first())
}

/// Every text comes after a `Connected` and before any `Disconnected`.
pub open spec fn texts_are_bracketed(events: Seq<Event>) -> bool {
    forall|i: int|
        0 <= i < events.len() && (#[trigger] events[i]) is Text ==> {
            &&& exists|j: int| 0 <= j < i && (#[trigger] events[j]) is Connected
            &&& forall|j: int| 0 <= j < i ==> !((#[trigger] events[j]) is Disconnected)
        }
}

proof fn lemma_emitted_after_start(worker: Worker, inputs: Seq<Input>)
    requires
        !(worker is Handshaking),
    ensures
        texts_then_end(emitted(worker, inputs)),
        worker is Done ==> emitted(worker, inputs).len() == 0,
    decreases inputs.len(),
{
    if inputs.len() > 0 {
        let (next, event) = step(worker, inputs[0]);
        let rest = emitted(next, inputs.drop_first());
        lemma_emitted_after_start(next, inputs.drop_first());
        let events = emitted(worker, inputs);
        assert forall|i: int| 0 <= i < events.len() implies (#[trigger] events[i]) is Text || (
        events[i] is Disconnected && i == events.len() - 1) by {
            if event is Some && i > 0 {
                assert(events[i] == rest[i - 1]);
            }
        }
    }
}

/// Whatever the transport brings, in whatever order, a new worker emits its
/// events well ordered.
pub proof fn lemma_worker_events_well_ordered(inputs: Seq<Input>)
    ensures
        well_ordered(emitted(Worker::Handshaking, inputs)),
    decreases inputs.len(),
{
    if inputs.len() > 0 {
        let (next, event) = step(Worker::Handshaking, inputs[0]);
        let rest = emitted(next, inputs.drop_first());
        lemma_emitted_after_start(next, inputs.drop_first());
        let events = emitted(Worker::Handshaking, inputs);
        if event is Some {
            assert(events.drop_first() =~= rest);
        }
    }
}

/// In a well-ordered sequence no text comes before `Connected` or after
/// `Disconnected`.
pub proof fn lemma_well_ordered_brackets_texts(events: Seq<Event>)
    requires
        well_ordered(events),
    ensures
        texts_are_bracketed(events),
{
    assert forall|i: int| 0 <= i < events.len() && (#[trigger] events[i]) is Text implies {
        &&& exists|j: int| 0 <= j < i && (#[trigger] events[j]) is Connected
        &&& forall|j: int| 0 <= j < i ==> !((#[trigger] events[j]) is Disconnected)
    } by {
        let tail = events.drop_first();
        assert(i > 0);
        assert(events[0] is Connected);
        assert forall|j: int| 0 <= j < i implies !((#[trigger] events[j]) is Disconnected) by {
            if j > 0 {
                assert(events[j] == tail[j - 1]);
            }
        }
    }
}

/// For any run of a new worker, no text is emitted before `Connected` or
/// after `Disconnected`.
pub proof fn lemma_worker_brackets_texts(inputs: Seq<Input>)
    ensures
        texts_are_bracketed(emitted(Worker::Handshaking, inputs)),
{
    lemma_worker_events_well_ordered(inputs);
    lemma_well_ordered_brackets_texts(emitted(Worker::Handshaking, inputs));
}

impl Worker {
    /// A worker at the start of its connection.
    pub fn new() -> (worker: Worker)
        ensures
            worker == Worker::Handshaking,
    {
        Worker::Handshaking
    }

    /// Whether the worker has ended.
    pub fn is_done(&self) -> (done: bool)
        ensures
            done == (*self is Done),
    {
        match self {
            Worker::Done => true,
            _ => false,
        }
    }

    /// Takes the outcome of the handshake. A stream starts the read loop and
    /// is announced to the coordinator, which gets a handle of its own on
    /// it; a failure ends the worker without a word to the coordinator.
    pub fn on_handshake(&mut self, outcome: Result<EncryptedStream, HandshakeError>) -> (event:
        Option<Message>)
        ensures
            (*final(self), event.deep_view()) == step(*old(self), Input::Handshake(outcome)),
    {
        match self {
            Worker::Handshaking => match outcome {
                Ok(stream) => {
                    let handle = stream.try_clone();
                    *self = Worker::Running(stream);
                    Some(Message::Connected(handle))
                },
                Err(_) => {
                    *self = Worker::Done;
                    None
                },
            },
            Worker::Running(_) => None,
            Worker::Done => None,
        }
    }

    /// Takes the bytes that one read delivered. Text is handed on, a frame
    /// without text is skipped, and anything that is not a frame ends the
    /// worker with the one `Disconnected` of its connection.
    pub fn on_frame(&mut self, raw: &[u8]) -> (event: Option<Message>)
        ensures
            (*final(self), event.deep_view()) == step(*old(self), Input::Frame(raw@)),
    {
        match self {
            Worker::Handshaking => {
                *self = Worker::Done;
                None
            },
            Worker::Running(stream) => match stream.recv(raw) {
                Ok(Some(text)) => Some(Message::Text(text)),
                Ok(None) => None,
                Err(_) => {
                    *self = Worker::Done;
                    Some(Message::Disconnected)
                },
            },
            Worker::Done => None,
        }
    }

    /// Takes the failure of a read: the end of the connection.
    pub fn on_read_failure(&mut self) -> (event: Option<Message>)
        ensures
            (*final(self), event.deep_view()) == step(*old(self), Input::ReadFailure),
    {
        match self {
            Worker::Handshaking => {
                *self = Worker::Done;
                None
            },
            Worker::Running(_) => {
                *self = Worker::Done;
                Some(Message::Disconnected)
            },
            Worker::Done => None,
        }
    }
}

} // verus!
