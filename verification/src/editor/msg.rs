//! Messages between an editor and the outside.
use vstd::prelude::*;

use crate::agent::scene::CrdtId;
use crate::agent::scene::PeerId;
use crate::text::decimal;
use crate::text::is_digit;
use crate::text::lemma_decimal_value;
use crate::text::push_all;
use crate::text::push_decimal;

verus! {

/// The identity of a node or an edge as seen from outside an editor.
pub type ExternalId = CrdtId;

/// An identity as text: the peer that minted it, a colon, and its counter.
pub open spec fn id_text(id: ExternalId) -> Seq<char> {
    decimal(id.peer as nat) + ":"@ + decimal(id.counter as nat)
}

/// Appends an identity to `out`.
pub fn push_id(out: &mut String, id: ExternalId)
    ensures
        final(out)@ == old(out)@ + id_text(id),
{
    push_decimal(out, id.peer);
    push_all(out, ":");
    push_decimal(out, id.counter);
    assert(out@ =~= old(out)@ + id_text(id));
}

/// `what`, followed by an identity.
pub fn about_id(what: &str, id: ExternalId) -> (r: String)
    ensures
        r@ == what@ + id_text(id),
{
    let mut r = what.to_owned();
    push_id(&mut r, id);
    r
}

/// Control of the connection to the room.
#[derive(Clone, Copy, Debug, PartialEq, Eq, Structural)]
pub enum SyncCommand {
    /// Try to connect again.
    Reconnect,
    /// Drop the local state and start over from the server's snapshot.
    RestoreFromSnapshot,
}

/// What happened to the connection to the room.
#[derive(Clone, Copy, Debug, PartialEq, Eq, Structural)]
pub enum SyncEvent {
    Connected { peer: PeerId },
    Disconnected,
    OpApplied { peer: PeerId, seq: u64 },
}

/// A change of the replicated topology, in terms that make sense outside. It
/// does not tell whether the change was made here or by a peer.
#[derive(Debug, PartialEq, Eq, Structural)]
pub enum GraphMessageExt<P> {
    NodeAppeared { id: ExternalId, position: P },
    NodeMoved { id: ExternalId, position: P },
    NodeRemoved { id: ExternalId },
    EdgeAppeared { id: ExternalId, from: ExternalId, to: ExternalId },
    EdgeRemoved { id: ExternalId, from: ExternalId, to: ExternalId },
}

/// A notification to the outside. `T` are the tools' own events, `P` the
/// positions of the canvas.
#[derive(Debug)]
pub enum AppEvent<T, P> {
    Tool(T),
    Graph(GraphMessageExt<P>),
    Sync(SyncEvent),
    /// A command that could not be acted upon.
    CommandError { message: String },
}

pub enum AppEventView<V, P> {
    Tool(V),
    Graph(GraphMessageExt<P>),
    Sync(SyncEvent),
    CommandError { message: Seq<char> },
}

impl<T: View, P> View for AppEvent<T, P> {
    type V = AppEventView<T::V, P>;

    open spec fn view(&self) -> AppEventView<T::V, P> {
        match *self {
            AppEvent::Tool(t) => AppEventView::Tool(t@),
            AppEvent::Graph(g) => AppEventView::Graph(g),
            AppEvent::Sync(s) => AppEventView::Sync(s),
            AppEvent::CommandError { message } => AppEventView::CommandError { message: message@ },
        }
    }
}

pub open spec fn app_views<T: View, P>(events: Seq<AppEvent<T, P>>) -> Seq<AppEventView<T::V, P>> {
    events.map_values(|e: AppEvent<T, P>| e@)
}

/// Tells the outside one more thing.
pub fn tell<T: View, P>(events: &mut Vec<AppEvent<T, P>>, event: AppEvent<T, P>)
    ensures
        app_views(final(events)@) == app_views(old(events)@).push(event@),
{
    events.push(event);
    assert(app_views(events@) =~= app_views(old(events)@).push(event@));
}

/// Tells the outside that a command could not be acted upon.
pub fn tell_error<T: View, P>(events: &mut Vec<AppEvent<T, P>>, message: String)
    ensures
        app_views(final(events)@) == app_views(old(events)@).push(
            AppEventView::CommandError { message: message@ },
        ),
{
    tell(events, AppEvent::CommandError { message });
}

/// The text of an identity is the peer in decimal digits, a colon, and the
/// counter in decimal digits, so different identities have different texts.
pub proof fn identity_texts_differ(a: ExternalId, b: ExternalId)
    ensures
        id_text(a) == id_text(b) <==> a == b,
{
    if id_text(a) == id_text(b) {
        lemma_decimal_value(a.peer as nat);
        lemma_decimal_value(b.peer as nat);
        lemma_decimal_value(a.counter as nat);
        lemma_decimal_value(b.counter as nat);
        reveal_strlit(":");
        let s = id_text(a);
        let p = decimal(a.peer as nat);
        let q = decimal(b.peer as nat);
        assert(s[p.len() as int] == ':');
        assert(s[q.len() as int] == ':');
        if p.len() < q.len() {
            assert(s[p.len() as int] == q[p.len() as int]);
            assert(is_digit(q[p.len() as int]));
        } else if q.len() < p.len() {
            assert(s[q.len() as int] == p[q.len() as int]);
            assert(is_digit(p[q.len() as int]));
        }
        assert(p =~= s.take(p.len() as int));
        assert(q =~= s.take(q.len() as int));
        assert(decimal(a.counter as nat) =~= s.skip(p.len() as int + 1));
        assert(decimal(b.counter as nat) =~= s.skip(q.len() as int + 1));
    }
}

} // verus!
