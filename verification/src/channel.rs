//! The two halves of a channel, and what remains of each use of one.
//!
//! Each half knows, for proofs only, which channel it belongs to. The values that
//! sending and receiving give back are made nowhere else, so a function that
//! returns one has used the channel that it names.
use vstd::prelude::*;
use crossbeam_channel::Receiver;
use crossbeam_channel::Sender;

verus! {

/// The sending half of a `crossbeam_channel` channel.
#[verifier::external_type_specification]
#[verifier::external_body]
#[verifier::reject_recursive_types(T)]
pub struct ExSender<T>(crossbeam_channel::Sender<T>);

/// The receiving half of a `crossbeam_channel` channel.
#[verifier::external_type_specification]
#[verifier::external_body]
#[verifier::reject_recursive_types(T)]
pub struct ExReceiver<T>(crossbeam_channel::Receiver<T>);

/// The half of a channel that messages go into.
#[verifier::reject_recursive_types(T)]
pub struct EventSender<T> {
    tx: Sender<T>,
    channel: Ghost<int>,
}

/// The half of a channel that messages come out of.
#[verifier::reject_recursive_types(T)]
pub struct EventReceiver<T> {
    rx: Receiver<T>,
    channel: Ghost<int>,
}

/// A message that a channel took.
#[verifier::reject_recursive_types(T)]
pub struct Sent<T> {
    message: Ghost<T>,
    channel: Ghost<int>,
}

/// A message that a channel did not take, because its receiving half is gone.
#[verifier::reject_recursive_types(T)]
pub struct Unsent<T> {
    message: T,
    channel: Ghost<int>,
}

/// Why nothing was received.
#[derive(Clone, Copy, Debug, PartialEq, Eq, Structural)]
pub enum Unreceived {
    /// Nothing is waiting, but a sender is still there.
    Empty,
    /// Nothing is waiting and every sender is gone.
    Disconnected,
}

/// A channel's answer that it has no message.
pub struct Drained {
    why: Unreceived,
    channel: Ghost<int>,
}

impl<T> Sent<T> {
    /// The message that was taken.
    pub closed spec fn message(self) -> T {
        self.message@
    }

    /// The channel that took it.
    pub closed spec fn channel(self) -> int {
        self.channel@
    }
}

impl<T> Unsent<T> {
    /// The message that was refused.
    pub closed spec fn message(self) -> T {
        self.message
    }

    /// The channel that refused it.
    pub closed spec fn channel(self) -> int {
        self.channel@
    }

    pub fn into_inner(self) -> (r: T)
        ensures
            r == self.message(),
    {
        self.message
    }
}

impl Drained {
    /// The reason given.
    pub closed spec fn spec_why(self) -> Unreceived {
        self.why
    }

    /// The channel that gave it.
    pub closed spec fn channel(self) -> int {
        self.channel@
    }

    pub fn why(&self) -> (r: Unreceived)
        ensures
            r == self.spec_why(),
    {
        self.why
    }
}

impl<T> EventSender<T> {
    /// The channel that this half belongs to.
    pub closed spec fn channel(self) -> int {
        self.channel@
    }

    /// Hands `msg` to the channel, which takes it or, where the receiving half
    /// is gone, gives it back.
    pub fn send(&self, msg: T) -> (r: Result<Sent<T>, Unsent<T>>)
        ensures
            r matches Ok(sent) ==> sent.message() == msg && sent.channel() == self.channel(),
            r matches Err(unsent) ==> unsent.message() == msg && unsent.channel()
                == self.channel(),
    {
        channel_send(self, msg)
    }
}

impl<T> EventReceiver<T> {
    /// The channel that this half belongs to.
    pub closed spec fn channel(self) -> int {
        self.channel@
    }

    /// The next message, or the channel's answer that there is none. Which of
    /// them comes is up to the other end.
    pub fn try_recv(&self) -> (r: Result<T, Drained>)
        ensures
            r matches Err(drained) ==> drained.channel() == self.channel(),
    {
        channel_try_recv(self)
    }
}

/// A fresh channel without a bound: its two halves.
pub fn unbounded<T>() -> (r: (EventSender<T>, EventReceiver<T>))
    ensures
        r.0.channel() == r.1.channel(),
{
    channel_unbounded()
}

/// `crossbeam_channel::unbounded`: the two halves of one fresh channel, which
/// both carry that channel's number. Which messages come out, and when, is up to
/// those who hold the halves, so nothing is claimed of it.
#[verifier::external_body]
fn channel_unbounded<T>() -> (r: (EventSender<T>, EventReceiver<T>))
    ensures
        r.0.channel() == r.1.channel(),
{
    let (tx, rx) = crossbeam_channel::unbounded();
    (EventSender { tx, channel: Ghost(0) }, EventReceiver { rx, channel: Ghost(0) })
}

/// `Sender::send`: the channel takes exactly this message, or gives that same
/// message back when the receiving half is gone.
#[verifier::external_body]
fn channel_send<T>(half: &EventSender<T>, msg: T) -> (r: Result<Sent<T>, Unsent<T>>)
    ensures
        r matches Ok(sent) ==> sent.message() == msg && sent.channel() == half.channel(),
        r matches Err(unsent) ==> unsent.message() == msg && unsent.channel() == half.channel(),
{
    match half.tx.send(msg) {
        Ok(()) => Ok(Sent { message: Ghost(msg), channel: half.channel }),
        Err(e) => Err(Unsent { message: e.into_inner(), channel: half.channel }),
    }
}

/// `Receiver::try_recv`: the next message, or why there is none. Which of them
/// comes depends on the other end; claimed is only which channel answered that
/// it has none.
#[verifier::external_body]
fn channel_try_recv<T>(half: &EventReceiver<T>) -> (r: Result<T, Drained>)
    ensures
        r matches Err(drained) ==> drained.channel() == half.channel(),
{
    let channel = half.channel;
    match half.rx.try_recv() {
        Ok(msg) => Ok(msg),
        Err(crossbeam_channel::TryRecvError::Empty) => {
            Err(Drained { why: Unreceived::Empty, channel })
        },
        Err(crossbeam_channel::TryRecvError::Disconnected) => {
            Err(Drained { why: Unreceived::Disconnected, channel })
        },
    }
}

} // verus!
