//! The remote poller's decisions.
use vstd::prelude::*;

use crate::events::{change_views, event_views, RemoteChange, SyncEvent, SyncEventView};
use crate::failure::Failure;

verus! {

/// Something that the poller is woken up by.
#[derive(Debug)]
pub enum PollerInput {
    /// The program is to stop.
    Shutdown,
    /// It is time to poll.
    Tick,
    /// What the remote store answered.
    Polled(Result<Vec<RemoteChange>, Failure>),
    /// Nobody takes events any more.
    ReceiverClosed,
}

/// What the poller does next.
#[derive(Debug)]
pub enum PollerAction {
    /// Wait for the next tick.
    Wait,
    /// Ask the remote store what changed.
    Poll,
    /// Pass the events on, in order, then wait.
    Send(Vec<SyncEvent>),
    /// End.
    Stop,
}

/// Takes the poller's next step. A poll that fails is left for the next tick.
pub fn step(input: PollerInput) -> (r: PollerAction)
    ensures
        match input {
            PollerInput::Shutdown => r is Stop,
            PollerInput::ReceiverClosed => r is Stop,
            PollerInput::Tick => r is Poll,
            PollerInput::Polled(Err(_)) => r is Wait,
            PollerInput::Polled(Ok(changes)) => {
                &&& r is Send
                &&& event_views(r->Send_0@) == change_views(changes@).map_values(
                    |change| SyncEventView::Remote(change),
                )
            },
        },
{
    match input {
        PollerInput::Shutdown => PollerAction::Stop,
        PollerInput::ReceiverClosed => PollerAction::Stop,
        PollerInput::Tick => PollerAction::Poll,
        PollerInput::Polled(Err(_)) => PollerAction::Wait,
        PollerInput::Polled(Ok(changes)) => PollerAction::Send(to_events(changes)),
    }
}

/// The events for remote changes, in order.
fn to_events(changes: Vec<RemoteChange>) -> (r: Vec<SyncEvent>)
    ensures
        event_views(r@) == change_views(changes@).map_values(
            |change| SyncEventView::Remote(change),
        ),
{
    let ghost all = changes@;
    let mut rest = changes;
    let mut reversed: Vec<SyncEvent> = Vec::new();
    while rest.len() > 0
        invariant
            rest@.len() + reversed@.len() == all.len(),
            rest@ == all.take(rest@.len() as int),
            forall|i: int|
                0 <= i < reversed@.len() ==> (#[trigger] reversed@[i])@ == SyncEventView::Remote(
                    all[all.len() - 1 - i]@,
                ),
        decreases rest.len(),
    {
        match rest.pop() {
            Some(change) => {
                reversed.push(SyncEvent::Remote(change));
            },
            None => {},
        }
    }
    let mut r: Vec<SyncEvent> = Vec::new();
    while reversed.len() > 0
        invariant
            r@.len() + reversed@.len() == all.len(),
            forall|i: int|
                0 <= i < reversed@.len() ==> (#[trigger] reversed@[i])@ == SyncEventView::Remote(
                    all[all.len() - 1 - i]@,
                ),
            forall|i: int|
                0 <= i < r@.len() ==> (#[trigger] r@[i])@ == SyncEventView::Remote(all[i]@),
        decreases reversed.len(),
    {
        match reversed.pop() {
            Some(event) => {
                r.push(event);
            },
            None => {},
        }
    }
    assert(event_views(r@) == change_views(all).map_values(|change| SyncEventView::Remote(change)));
    r
}

} // verus!
