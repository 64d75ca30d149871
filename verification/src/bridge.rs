//! The duplex bridge: a pair of channels between an editor and whoever drives
//! it from outside, and a handle through which any code can reach them.
use vstd::prelude::*;

use crate::channel::{unbounded, Drained, EventReceiver, EventSender, Sent, Unreceived, Unsent};
use crate::text::push_all;

verus! {

/// The `Display` text of `crossbeam_channel::SendError`, which is the same for
/// every message.
#[verifier::external_body]
fn send_error_text() -> (r: String)
    ensures
        r@ == "sending on a disconnected channel"@,
{
    crossbeam_channel::SendError(()).to_string()
}

/// The `Display` text of `crossbeam_channel::TryRecvError::Disconnected`.
#[verifier::external_body]
fn disconnected_text() -> (r: String)
    ensures
        r@ == "receiving on an empty and disconnected channel"@,
{
    crossbeam_channel::TryRecvError::Disconnected.to_string()
}

/// A sender under a name of its own, so that an editor can hold one per kind of
/// message.
#[verifier::reject_recursive_types(T)]
pub struct ChannelMsgSender<T>(pub EventSender<T>);

/// The editor's end of a duplex bridge: it drains `In` from outside and sends
/// `Out` back.
#[verifier::reject_recursive_types(In)]
#[verifier::reject_recursive_types(Out)]
pub struct DuplexPlugin<In, Out> {
    pub rust_tx: ChannelMsgSender<Out>,
    pub rust_rx: EventReceiver<In>,
}

/// Takes in one answer of the inbound channel: a message joins `events`, and
/// anything else ends the draining, for the reason given.
pub fn take_received<T, E>(answer: Result<T, E>, events: &mut Vec<T>) -> (end: Option<E>)
    ensures
        answer matches Ok(msg) ==> end is None && final(events)@ == old(events)@.push(msg),
        answer matches Err(why) ==> end == Some(why) && final(events)@ == old(events)@,
{
    match answer {
        Ok(msg) => {
            events.push(msg);
            None
        },
        Err(why) => Some(why),
    }
}

impl<In, Out> DuplexPlugin<In, Out> {
    pub fn new(rust_tx: EventSender<Out>, rust_rx: EventReceiver<In>) -> (r: Self)
        ensures
            r.rust_tx.0 == rust_tx,
            r.rust_rx == rust_rx,
    {
        DuplexPlugin { rust_tx: ChannelMsgSender(rust_tx), rust_rx }
    }

    /// Drains the inbound channel into `events`: every message that is waiting
    /// goes behind those already there, until the channel answers that it has
    /// none. The result is that answer: the channel ran empty, or it lost its
    /// last sender. What is waiting is up to the other end; [`take_received`]
    /// says what comes of each answer.
    pub fn receive_external_event(&self, events: &mut Vec<In>) -> (end: Drained)
        ensures
            old(events)@.is_prefix_of(final(events)@),
            end.channel() == self.rust_rx.channel(),
    {
        loop
            invariant
                old(events)@.is_prefix_of(events@),
            decreases usize::MAX - events@.len(),
        {
            if let Some(end) = take_received(self.rust_rx.try_recv(), events) {
                return end;
            }
            assert(events.len() <= usize::MAX);
        }
    }

    /// Sends every event out, in order. The result has one entry per event: the
    /// outbound channel took it, or gave it back because the receiving side is
    /// gone.
    pub fn send_events_externally(&self, events: Vec<Out>) -> (r: Vec<
        Result<Sent<Out>, Unsent<Out>>,
    >)
        ensures
            r@.len() == events@.len(),
            forall|i: int|
                #![trigger r@[i]]
                0 <= i < events@.len() ==> handed_over(r@[i], events@[i], self.rust_tx.0),
    {
        let mut queue = events;
        let mut r: Vec<Result<Sent<Out>, Unsent<Out>>> = Vec::new();
        while queue.len() > 0
            invariant
                r@.len() + queue@.len() == events@.len(),
                queue@ == events@.skip(r@.len() as int),
                forall|i: int|
                    #![trigger r@[i]]
                    0 <= i < r@.len() ==> handed_over(r@[i], events@[i], self.rust_tx.0),
            decreases queue@.len(),
        {
            let event = queue.remove(0);
            r.push(self.rust_tx.0.send(event));
        }
        r
    }
}

/// Whether `attempt` is what came of handing `msg` to the channel of `tx`.
pub open spec fn handed_over<T>(
    attempt: Result<Sent<T>, Unsent<T>>,
    msg: T,
    tx: EventSender<T>,
) -> bool {
    match attempt {
        Ok(sent) => sent.message() == msg && sent.channel() == tx.channel(),
        Err(unsent) => unsent.message() == msg && unsent.channel() == tx.channel(),
    }
}

/// A fresh bridge: the editor's end, the receiver from which outside observers
/// read what the editor sends, and the sender into which outside producers push
/// what the editor receives.
pub fn create_duplex_plugin<In, Out>() -> (r: (
    DuplexPlugin<In, Out>,
    EventReceiver<Out>,
    EventSender<In>,
))
    ensures
        r.0.rust_tx.0.channel() == r.1.channel(),
        r.2.channel() == r.0.rust_rx.channel(),
{
    let (ext_tx, rust_rx) = unbounded::<In>();
    let (rust_tx, ext_rx) = unbounded::<Out>();
    (DuplexPlugin::new(rust_tx, rust_rx), ext_rx, ext_tx)
}

/// What a caller is told of an attempt to send.
pub fn send_outcome<S, T>(attempt: Result<S, T>) -> (r: Result<S, String>)
    ensures
        r is Ok <==> attempt is Ok,
        attempt matches Ok(sent) ==> r == Ok::<S, String>(sent),
        r matches Err(text) ==> text@ == "send: "@ + "sending on a disconnected channel"@,
{
    match attempt {
        Ok(sent) => Ok(sent),
        Err(_) => {
            let mut text = "send: ".to_owned();
            push_all(&mut text, send_error_text().as_str());
            Err(text)
        },
    }
}

/// What a caller is told of an answer of the outbound channel.
pub fn receive_outcome<T>(answer: Result<T, Unreceived>) -> (r: Result<Option<T>, String>)
    ensures
        answer matches Ok(msg) ==> r == Ok::<Option<T>, String>(Some(msg)),
        answer == Err::<T, Unreceived>(Unreceived::Empty) ==> r == Ok::<Option<T>, String>(None),
        r is Err <==> answer == Err::<T, Unreceived>(Unreceived::Disconnected),
        r matches Err(text) ==> text@ == "recv: "@
            + "receiving on an empty and disconnected channel"@,
{
    match answer {
        Ok(msg) => Ok(Some(msg)),
        Err(Unreceived::Empty) => Ok(None),
        Err(Unreceived::Disconnected) => {
            let mut text = "recv: ".to_owned();
            push_all(&mut text, disconnected_text().as_str());
            Err(text)
        },
    }
}

/// A handle to the outside ends of a bridge, for code that has nowhere to
/// thread them through: wired once, used from anywhere.
#[verifier::reject_recursive_types(In)]
#[verifier::reject_recursive_types(Out)]
pub struct GlobalEventChannel<In, Out> {
    sender: Option<EventSender<In>>,
    receiver: Option<EventReceiver<Out>>,
}

impl<In, Out> GlobalEventChannel<In, Out> {
    pub closed spec fn spec_sender(self) -> Option<EventSender<In>> {
        self.sender
    }

    pub closed spec fn spec_receiver(self) -> Option<EventReceiver<Out>> {
        self.receiver
    }

    pub fn new() -> (r: Self)
        ensures
            r.spec_sender() is None,
            r.spec_receiver() is None,
    {
        GlobalEventChannel { sender: None, receiver: None }
    }

    pub fn set_sender(&mut self, sender: EventSender<In>)
        ensures
            final(self).spec_sender() == Some(sender),
            final(self).spec_receiver() == old(self).spec_receiver(),
    {
        self.sender = Some(sender);
    }

    pub fn set_receiver(&mut self, receiver: EventReceiver<Out>)
        ensures
            final(self).spec_receiver() == Some(receiver),
            final(self).spec_sender() == old(self).spec_sender(),
    {
        self.receiver = Some(receiver);
    }

    /// Pushes a command into the editor: success says that the channel of the
    /// sender took it. Fails when no sender was set, or when the receiving side
    /// is gone.
    pub fn send(&self, msg: In) -> (r: Result<Sent<In>, String>)
        ensures
            self.spec_sender() is None ==> r is Err,
            r matches Ok(sent) ==> sent.message() == msg && sent.channel()
                == self.spec_sender()->0.channel(),
            r matches Err(text) ==> text@ == if self.spec_sender() is None {
                "sender not initialised"@
            } else {
                "send: "@ + "sending on a disconnected channel"@
            },
    {
        match &self.sender {
            Some(tx) => send_outcome(tx.send(msg)),
            None => Err("sender not initialised".to_owned()),
        }
    }

    /// Polls for one outbound event without blocking: `Ok(None)` when none is
    /// waiting, an error when no receiver was set or the sending side is gone.
    pub fn try_receive(&self) -> (r: Result<Option<Out>, String>)
        ensures
            self.spec_receiver() is None ==> r is Err,
            r matches Err(text) ==> text@ == if self.spec_receiver() is None {
                "receiver not initialised"@
            } else {
                "recv: "@ + "receiving on an empty and disconnected channel"@
            },
    {
        match &self.receiver {
            Some(rx) => match rx.try_recv() {
                Ok(msg) => receive_outcome(Ok(msg)),
                Err(drained) => receive_outcome(Err(drained.why())),
            },
            None => Err("receiver not initialised".to_owned()),
        }
    }
}

impl<In, Out> Default for GlobalEventChannel<In, Out> {
    fn default() -> (r: Self)
        ensures
            r.spec_sender() is None,
            r.spec_receiver() is None,
    {
        GlobalEventChannel::new()
    }
}

/// What came of an attempt to send names the message that was handed over and the
/// channel that it was handed to, whether the channel took it or gave it back.
pub proof fn attempt_names_message_and_channel<T>(
    attempt: Result<Sent<T>, Unsent<T>>,
    msg: T,
    tx: EventSender<T>,
)
    requires
        handed_over(attempt, msg, tx),
    ensures
        attempt matches Ok(sent) ==> sent.message() == msg && sent.channel() == tx.channel(),
        attempt matches Err(unsent) ==> unsent.message() == msg && unsent.channel() == tx.channel(),
{
}

} // verus!
