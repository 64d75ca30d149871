//! The connection and the active tool, told of as they change.
use vstd::prelude::*;

use crate::agent::scene::PeerId;
use crate::editor::msg::app_views;
use crate::editor::msg::tell;
use crate::editor::msg::AppEvent;
use crate::editor::msg::AppEventView;
use crate::editor::msg::SyncEvent;
use crate::presence::SyncStatus;
use crate::table::TableKey;

verus! {

/// What looking at `status` tells, and whether the connection counts as told of
/// afterwards.
pub open spec fn connected_step(status: SyncStatus, announced: bool) -> (Option<SyncEvent>, bool) {
    match status {
        SyncStatus::Connected { peer } => (
            if announced {
                None
            } else {
                Some(SyncEvent::Connected { peer })
            },
            true,
        ),
        _ => (None, false),
    }
}

/// Tells that the connection stands, once per connection. `announced` says
/// whether this connection was told of already.
pub fn emit_connected_once<T: View, P>(
    status: SyncStatus,
    announced: &mut bool,
    events: &mut Vec<AppEvent<T, P>>,
)
    ensures
        *final(announced) == connected_step(status, *old(announced)).1,
        app_views(final(events)@) == (match connected_step(status, *old(announced)).0 {
            Some(event) => app_views(old(events)@).push(AppEventView::Sync(event)),
            None => app_views(old(events)@),
        }),
{
    match status {
        SyncStatus::Connected { peer } => {
            if !*announced {
                tell(events, AppEvent::Sync(SyncEvent::Connected { peer }));
                *announced = true;
            }
        },
        _ => {
            *announced = false;
        },
    }
}

/// Tells that the connection was lost, once each time. `last` says whether it
/// was already lost when last looked at.
pub fn emit_disconnected<T: View, P>(
    status: SyncStatus,
    last: &mut bool,
    events: &mut Vec<AppEvent<T, P>>,
)
    ensures
        *final(last) == (status is Disconnected),
        app_views(final(events)@) == (if status is Disconnected && !*old(last) {
            app_views(old(events)@).push(AppEventView::Sync(SyncEvent::Disconnected))
        } else {
            app_views(old(events)@)
        }),
{
    let now = match status {
        SyncStatus::Disconnected => true,
        _ => false,
    };
    if now && !*last {
        tell(events, AppEvent::Sync(SyncEvent::Disconnected));
    }
    *last = now;
}

/// Whether a connection is told of at step `i` of a run that starts
/// unconnected.
pub open spec fn told_at(statuses: Seq<SyncStatus>, i: int) -> bool {
    statuses[i] is Connected && (i == 0 || !(statuses[i - 1] is Connected))
}

/// The events that telling of connections makes over a run of statuses, with
/// the flag it leaves.
pub open spec fn connections_told(statuses: Seq<SyncStatus>) -> (Seq<SyncEvent>, bool)
    decreases statuses.len(),
{
    if statuses.len() == 0 {
        (Seq::empty(), false)
    } else {
        let (events, announced) = connections_told(statuses.drop_last());
        let (told, next) = connected_step(statuses.last(), announced);
        match told {
            Some(event) => (events.push(event), next),
            None => (events, next),
        }
    }
}

/// Over any run, one more step tells of a connection exactly when the status
/// turns from anything else to connected.
pub proof fn connected_once_per_connection(statuses: Seq<SyncStatus>)
    requires
        statuses.len() > 0,
    ensures
        connections_told(statuses).0 == (if told_at(statuses, statuses.len() - 1) {
            connections_told(statuses.drop_last()).0.push(
                SyncEvent::Connected { peer: statuses.last()->Connected_peer },
            )
        } else {
            connections_told(statuses.drop_last()).0
        }),
        connections_told(statuses).1 == (statuses.last() is Connected),
    decreases statuses.len(),
{
    if statuses.len() > 1 {
        connected_once_per_connection(statuses.drop_last());
    }
}

/// The active tool, where it is not the one last told of.
pub fn tool_changed<X: TableKey>(now: X, last: &mut Option<X>) -> (r: Option<X>)
    ensures
        *final(last) == Some(now),
        r == (if *old(last) == Some(now) {
            None
        } else {
            Some(now)
        }),
{
    let same = match last {
        Some(x) => x.same_key(&now),
        None => false,
    };
    if same {
        None
    } else {
        *last = Some(now);
        Some(now)
    }
}

/// A connection is told once, with the peer that it gives, and counts as told
/// until it is lost; anything but a connection tells nothing.
pub proof fn connection_is_told_once(status: SyncStatus, peer: PeerId)
    ensures
        connected_step(SyncStatus::Connected { peer }, false) == (
            Some(SyncEvent::Connected { peer }),
            true,
        ),
        connected_step(SyncStatus::Connected { peer }, true) == (None::<SyncEvent>, true),
        !(status is Connected) ==> connected_step(status, true) == (None::<SyncEvent>, false)
            && connected_step(status, false) == (None::<SyncEvent>, false),
{
}

} // verus!
