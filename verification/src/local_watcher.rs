//! The debounce queue between the file watcher and the sync engine.
use vstd::prelude::*;

use crate::config::{absolutize_runtime, runtime_path, PathFacts, PathKind};
use crate::events::{event_views, LocalFileEvent, LocalFileEventKind, SyncEvent, SyncEventView};
use crate::keyed::lemma_find;
use crate::path::{components, same_path, LocalPath};
use crate::path_map::{
    entry_of, inserted, law_inserted_is_found, lemma_filter_one_per_path, one_per_path, PathMap,
};

verus! {

/// How long a change waits for another one of the same path, in nanoseconds.
pub const DEBOUNCE_NANOS: u64 = 2_000_000_000;

/// How long the watcher waits between two looks at the queue, in milliseconds.
pub const TICK_MILLIS: u64 = 250;

/// What happened to a file, as far as the queue tells it apart.
#[derive(Debug, Clone, Copy, PartialEq, Eq, Structural)]
pub enum DebouncedKind {
    Upsert,
    Delete,
}

/// A change that waits to be passed on, and the clock reading from which on it
/// is.
#[derive(Debug, Clone, Copy, PartialEq, Eq, Structural)]
pub struct DebouncedEvent {
    pub kind: DebouncedKind,
    pub ready_at: u64,
}

impl View for DebouncedEvent {
    type V = DebouncedEvent;

    open spec fn view(&self) -> DebouncedEvent {
        *self
    }
}

/// What the file watcher saw.
#[derive(Debug, Clone, Copy, PartialEq, Eq, Structural)]
pub enum WatchEventKind {
    /// Something was created.
    Create,
    /// Something was renamed.
    Rename,
    /// Content or attributes were modified.
    Modify,
    /// Something was removed.
    Remove,
    /// Anything else.
    Other,
}

/// A path that the file watcher names, with what the file system says of it.
#[derive(Debug, Clone, PartialEq, Eq)]
pub struct ObservedPath {
    pub path: LocalPath,
    pub facts: PathFacts,
}

/// A report of the file watcher.
#[derive(Debug, Clone, PartialEq, Eq)]
pub struct WatchEvent {
    pub kind: WatchEventKind,
    pub paths: Vec<ObservedPath>,
}

/// How a watched path is watched.
#[derive(Debug, Clone, Copy, PartialEq, Eq, Structural)]
pub enum WatchMode {
    Recursive,
    NonRecursive,
}

/// How to watch a path, by what there is at it; nothing is watched where there
/// is nothing.
pub fn watch_mode(kind: PathKind) -> (r: Option<WatchMode>)
    ensures
        r == match kind {
            PathKind::Missing => None,
            PathKind::Directory => Some(WatchMode::Recursive),
            _ => Some(WatchMode::NonRecursive),
        },
{
    match kind {
        PathKind::Missing => None,
        PathKind::Directory => Some(WatchMode::Recursive),
        _ => Some(WatchMode::NonRecursive),
    }
}

/// A change of one path that a report asks to queue.
pub open spec fn planned_change(
    observed: ObservedPath,
    kind: DebouncedKind,
) -> Option<(Seq<u8>, DebouncedKind)> {
    if kind == DebouncedKind::Upsert && observed.facts.kind == PathKind::Directory {
        None
    } else {
        Some((runtime_path(observed.path@, observed.facts), kind))
    }
}

/// The kind of change that a report means for its path with the given index.
pub open spec fn kind_at(event: WatchEvent, i: int) -> DebouncedKind {
    match event.kind {
        WatchEventKind::Remove => DebouncedKind::Delete,
        WatchEventKind::Rename => if event.paths@.len() == 2 && i == 0 {
            DebouncedKind::Delete
        } else {
            DebouncedKind::Upsert
        },
        _ => DebouncedKind::Upsert,
    }
}

/// The queue after the first `n` paths of a report.
pub open spec fn queued_paths(
    list: Seq<(Seq<u8>, DebouncedEvent)>,
    event: WatchEvent,
    ready_at: u64,
    n: nat,
) -> Seq<(Seq<u8>, DebouncedEvent)>
    decreases n,
{
    if n == 0 || event.kind == WatchEventKind::Other {
        list
    } else {
        let before = queued_paths(list, event, ready_at, (n - 1) as nat);
        match planned_change(event.paths@[n - 1], kind_at(event, n - 1)) {
            Some((path, kind)) => inserted(before, path, DebouncedEvent { kind, ready_at }),
            None => before,
        }
    }
}

/// Whether an entry has waited long enough.
pub open spec fn is_ready(now: u64) -> spec_fn((Seq<u8>, DebouncedEvent)) -> bool {
    |entry: (Seq<u8>, DebouncedEvent)| entry.1.ready_at <= now
}

/// Whether an entry still waits.
pub open spec fn is_waiting(now: u64) -> spec_fn((Seq<u8>, DebouncedEvent)) -> bool {
    |entry: (Seq<u8>, DebouncedEvent)| entry.1.ready_at > now
}

/// What is passed on for an entry.
pub open spec fn passed_on(entry: (Seq<u8>, DebouncedEvent)) -> SyncEventView {
    SyncEventView::Local(
        match entry.1.kind {
            DebouncedKind::Upsert => LocalFileEventKind::Upsert,
            DebouncedKind::Delete => LocalFileEventKind::Delete,
        },
        entry.0,
    )
}

/// The events for the entries that have waited long enough.
pub open spec fn ready_events(list: Seq<(Seq<u8>, DebouncedEvent)>, now: u64) -> Seq<
    SyncEventView,
> {
    list.filter(is_ready(now)).map_values(|entry: (Seq<u8>, DebouncedEvent)| passed_on(entry))
}

/// Something that the watcher is woken up by.
#[derive(Debug, PartialEq, Eq)]
pub enum WatcherInput {
    /// The program is to stop.
    Shutdown,
    /// It is time to look at the queue.
    Tick,
    /// The file watcher will report no more.
    SourceClosed,
    /// The file watcher reports an error.
    SourceFailed,
    /// The file watcher reports a change.
    Report(WatchEvent),
    /// Nobody takes events any more.
    ReceiverClosed,
}

/// The queue after an input at the clock reading `now`: a tick takes out what
/// is ready, and a report queues its changes.
pub open spec fn after_input(
    list: Seq<(Seq<u8>, DebouncedEvent)>,
    input: WatcherInput,
    now: u64,
) -> Seq<(Seq<u8>, DebouncedEvent)> {
    match input {
        WatcherInput::Tick => list.filter(is_waiting(now)),
        WatcherInput::Report(event) => queued_paths(
            list,
            event,
            (now + DEBOUNCE_NANOS) as u64,
            event.paths@.len(),
        ),
        _ => list,
    }
}

/// The events that an input at the clock reading `now` passes on: only a tick
/// does.
pub open spec fn passed_at(
    list: Seq<(Seq<u8>, DebouncedEvent)>,
    input: WatcherInput,
    now: u64,
) -> Seq<SyncEventView> {
    match input {
        WatcherInput::Tick => ready_events(list, now),
        _ => Seq::empty(),
    }
}

/// The queue after inputs, each at its clock reading.
pub open spec fn after_inputs(
    list: Seq<(Seq<u8>, DebouncedEvent)>,
    inputs: Seq<(WatcherInput, u64)>,
) -> Seq<(Seq<u8>, DebouncedEvent)>
    decreases inputs.len(),
{
    if inputs.len() == 0 {
        list
    } else {
        after_input(
            after_inputs(list, inputs.drop_last()),
            inputs.last().0,
            inputs.last().1,
        )
    }
}

/// What the watcher does next.
#[derive(Debug, PartialEq, Eq)]
pub enum WatcherAction {
    /// Wait for the next input.
    Wait,
    /// Pass the events on, in order, then wait.
    Send(Vec<SyncEvent>),
    /// End.
    Stop,
}

/// The changes that wait to be passed on, one for each path.
#[derive(Debug)]
pub struct PendingEvents {
    changes: PathMap<DebouncedEvent>,
}

impl View for PendingEvents {
    type V = Seq<(Seq<u8>, DebouncedEvent)>;

    closed spec fn view(&self) -> Seq<(Seq<u8>, DebouncedEvent)> {
        self.changes@
    }
}

impl PendingEvents {
    /// No path has two entries.
    pub open spec fn wf(&self) -> bool {
        one_per_path(self@)
    }

    /// The empty queue.
    pub fn new() -> (r: Self)
        ensures
            r@.len() == 0,
            r.wf(),
    {
        PendingEvents { changes: PathMap::new() }
    }

    /// How many paths have an entry.
    pub fn len(&self) -> (n: usize)
        ensures
            n == self@.len(),
    {
        self.changes.len()
    }

    /// Queues what a report of the file watcher, made at the clock reading
    /// `now`, says. A rename of one path to another deletes the one and
    /// updates the other; folders are not updated.
    pub fn queue_event(&mut self, event: &WatchEvent, now: u64, debounce_for: u64)
        requires
            old(self).wf(),
            now + debounce_for <= u64::MAX,
        ensures
            final(self)@ == queued_paths(
                old(self)@,
                *event,
                (now + debounce_for) as u64,
                event.paths@.len(),
            ),
            final(self).wf(),
    {
        let ready_at: u64 = now + debounce_for;
        let ghost before = self@;
        match event.kind {
            WatchEventKind::Other => {
                return;
            },
            _ => {},
        }
        let mut i: usize = 0;
        while i < event.paths.len()
            invariant
                i <= event.paths.len(),
                event.kind != WatchEventKind::Other,
                ready_at == now + debounce_for,
                self.wf(),
                self@ == queued_paths(before, *event, ready_at, i as nat),
            decreases event.paths.len() - i,
        {
            let observed = &event.paths[i];
            let kind = match event.kind {
                WatchEventKind::Remove => DebouncedKind::Delete,
                WatchEventKind::Rename => {
                    if event.paths.len() == 2 && i == 0 {
                        DebouncedKind::Delete
                    } else {
                        DebouncedKind::Upsert
                    }
                },
                _ => DebouncedKind::Upsert,
            };
            if kind == DebouncedKind::Upsert && observed.facts.kind == PathKind::Directory {
            } else {
                let path = absolutize_runtime(&observed.path, &observed.facts);
                self.changes.insert(path, DebouncedEvent { kind, ready_at });
            }
            i += 1;
        }
    }

    /// Takes the changes that are ready at the clock reading `now` out of the
    /// queue, as events.
    pub fn flush_pending(&mut self, now: u64) -> (r: Vec<SyncEvent>)
        requires
            old(self).wf(),
        ensures
            event_views(r@) == ready_events(old(self)@, now),
            final(self)@ == old(self)@.filter(is_waiting(now)),
            final(self).wf(),
    {
        let ghost all = self@;
        let ghost wrap = |entry: (Seq<u8>, DebouncedEvent)| passed_on(entry);
        let mut r: Vec<SyncEvent> = Vec::new();
        let ghost mut done: int = 0;
        let mut i: usize = 0;
        proof {
            reveal(Seq::filter);
            assert(event_views(r@) == all.take(0).filter(is_ready(now)).map_values(wrap));
            assert(self@ == all.take(0).filter(is_waiting(now)) + all.skip(0));
        }
        while i < self.changes.len()
            invariant
                i <= self@.len(),
                done + self@.len() - i == all.len(),
                i <= done,
                done <= all.len(),
                self.wf(),
                wrap == (|entry: (Seq<u8>, DebouncedEvent)| passed_on(entry)),
                event_views(r@) == all.take(done).filter(is_ready(now)).map_values(wrap),
                i == all.take(done).filter(is_waiting(now)).len(),
                self@ == all.take(done).filter(is_waiting(now)) + all.skip(done),
            decreases self@.len() - i,
        {
            let event = *self.changes.value(i);
            let ghost entry = all[done];
            let ghost kept = all.take(done).filter(is_ready(now));
            let ghost waiting = all.take(done).filter(is_waiting(now));
            proof {
                reveal(Seq::filter);
                assert(self@[i as int] == entry);
                assert(event == entry.1);
                assert(all.take(done + 1).drop_last() == all.take(done));
                assert(all.take(done + 1).last() == entry);
            }
            if event.ready_at <= now {
                let (path, _) = self.changes.remove_at(i);
                let kind = match event.kind {
                    DebouncedKind::Upsert => LocalFileEventKind::Upsert,
                    DebouncedKind::Delete => LocalFileEventKind::Delete,
                };
                let ghost before = r@;
                r.push(SyncEvent::Local(LocalFileEvent { kind, path }));
                assert(event_views(r@) == event_views(before).push(passed_on(entry)));
                assert(kept.push(entry).map_values(wrap) == kept.map_values(wrap).push(
                    passed_on(entry),
                ));
                assert(self@ == waiting + all.skip(done + 1));
            } else {
                assert(self@ == waiting.push(entry) + all.skip(done + 1));
                i += 1;
            }
            proof {
                done = done + 1;
            }
        }
        assert(all.take(done) == all);
        assert(self@ == all.filter(is_waiting(now)));
        r
    }

    /// Takes the watcher's next step at the clock reading `now`.
    pub fn step(&mut self, input: &WatcherInput, now: u64) -> (r: WatcherAction)
        requires
            old(self).wf(),
            now + DEBOUNCE_NANOS <= u64::MAX,
        ensures
            final(self).wf(),
            final(self)@ == after_input(old(self)@, *input, now),
            match *input {
                WatcherInput::Shutdown => r == WatcherAction::Stop,
                WatcherInput::SourceClosed => r == WatcherAction::Stop,
                WatcherInput::ReceiverClosed => r == WatcherAction::Stop,
                WatcherInput::SourceFailed => r == WatcherAction::Wait,
                WatcherInput::Tick => {
                    &&& r is Send
                    &&& event_views(r->Send_0@) == passed_at(old(self)@, *input, now)
                },
                WatcherInput::Report(_) => r == WatcherAction::Wait,
            },
    {
        match input {
            WatcherInput::Shutdown => WatcherAction::Stop,
            WatcherInput::SourceClosed => WatcherAction::Stop,
            WatcherInput::ReceiverClosed => WatcherAction::Stop,
            WatcherInput::SourceFailed => WatcherAction::Wait,
            WatcherInput::Tick => WatcherAction::Send(self.flush_pending(now)),
            WatcherInput::Report(event) => {
                self.queue_event(event, now, DEBOUNCE_NANOS);
                WatcherAction::Wait
            },
        }
    }
}

/// Nothing is passed on for a path until the time of its last change has come,
/// however many changes came before it.
pub proof fn law_changes_wait_for_quiet(
    list: Seq<(Seq<u8>, DebouncedEvent)>,
    path: Seq<u8>,
    event: DebouncedEvent,
    now: u64,
)
    requires
        one_per_path(list),
        now < event.ready_at,
    ensures
        forall|i: int|
            0 <= i < ready_events(inserted(list, path, event), now).len() ==> !same_path(
                (#[trigger] ready_events(inserted(list, path, event), now)[i])->Local_1,
                path,
            ),
{
    let after = inserted(list, path, event);
    law_inserted_is_found(list, path, event);
    let k = choose|k: int|
        0 <= k < after.len() && same_path((#[trigger] after[k]).0, path) && after[k].1 == event;
    let ready = after.filter(is_ready(now));
    assert forall|i: int| 0 <= i < ready_events(after, now).len() implies !same_path(
        (#[trigger] ready_events(after, now)[i])->Local_1,
        path,
    ) by {
        assert(ready_events(after, now)[i] == passed_on(ready[i]));
        after.lemma_filter_pred(is_ready(now), i);
        assert(ready.contains(ready[i]));
        after.lemma_filter_contains_rev(is_ready(now), ready[i]);
        let j = choose|j: int| 0 <= j < after.len() && after[j] == ready[i];
        if same_path(ready[i].0, path) {
            if j < k {
                assert(components(after[j].0) != components(after[k].0));
            } else if k < j {
                assert(components(after[k].0) != components(after[j].0));
            }
        }
    }
}

/// Once the time of a path's last change has come, that change is passed on,
/// and it is what the path is then reported with.
pub proof fn law_quiet_changes_are_passed_on(
    list: Seq<(Seq<u8>, DebouncedEvent)>,
    path: Seq<u8>,
    event: DebouncedEvent,
    now: u64,
)
    requires
        one_per_path(list),
        event.ready_at <= now,
    ensures
        exists|i: int|
            0 <= i < ready_events(inserted(list, path, event), now).len() && {
                let passed = #[trigger] ready_events(inserted(list, path, event), now)[i];
                passed == passed_on((passed->Local_1, event)) && same_path(
                    passed->Local_1,
                    path,
                )
            },
{
    let after = inserted(list, path, event);
    law_inserted_is_found(list, path, event);
    let k = choose|k: int|
        0 <= k < after.len() && same_path((#[trigger] after[k]).0, path) && after[k].1 == event;
    after.lemma_filter_contains(is_ready(now), k);
    let ready = after.filter(is_ready(now));
    let i = choose|i: int| 0 <= i < ready.len() && ready[i] == after[k];
    assert(ready_events(after, now)[i] == passed_on(after[k]));
}

/// The path that a report queues a change of for its path with the given index,
/// if it queues any.
pub open spec fn planned_path(event: WatchEvent, k: int) -> Option<Seq<u8>> {
    match planned_change(event.paths@[k], kind_at(event, k)) {
        Some((path, _)) => Some(path),
        None => None,
    }
}

/// What a report has queued for its paths is due at the report's time.
proof fn lemma_report_is_due(
    list: Seq<(Seq<u8>, DebouncedEvent)>,
    event: WatchEvent,
    ready_at: u64,
    n: nat,
    k: int,
)
    requires
        one_per_path(list),
        event.kind != WatchEventKind::Other,
        n <= event.paths@.len(),
    ensures
        one_per_path(queued_paths(list, event, ready_at, n)),
        0 <= k < n && planned_path(event, k) is Some ==> forall|i: int|
            0 <= i < queued_paths(list, event, ready_at, n).len() && same_path(
                (#[trigger] queued_paths(list, event, ready_at, n)[i]).0,
                planned_path(event, k)->0,
            ) ==> queued_paths(list, event, ready_at, n)[i].1.ready_at == ready_at,
    decreases n,
{
    if n > 0 {
        let before = queued_paths(list, event, ready_at, (n - 1) as nat);
        let after = queued_paths(list, event, ready_at, n);
        lemma_report_is_due(list, event, ready_at, (n - 1) as nat, k);
        match planned_change(event.paths@[n - 1], kind_at(event, n - 1)) {
            Some((path, kind)) => {
                let change = DebouncedEvent { kind, ready_at };
                law_inserted_is_found(before, path, change);
                if 0 <= k < n && planned_path(event, k) is Some {
                    let wanted = planned_path(event, k)->0;
                    let at = choose|at: int|
                        0 <= at < after.len() && same_path((#[trigger] after[at]).0, path)
                            && after[at].1 == change;
                    lemma_find(before, entry_of::<DebouncedEvent>(path));
                    assert forall|i: int| 0 <= i < after.len() && same_path(
                        (#[trigger] after[i]).0,
                        wanted,
                    ) implies after[i].1.ready_at == ready_at by {
                        if same_path(after[i].0, path) {
                            if i < at {
                                assert(components(after[i].0) != components(after[at].0));
                            } else if at < i {
                                assert(components(after[at].0) != components(after[i].0));
                            }
                        } else {
                            assert(i < before.len() && after[i] == before[i]);
                        }
                    }
                }
            },
            None => {},
        }
    }
}

/// Whether no change of the path is due before the clock reading `ready_at`.
pub open spec fn rests_until(
    list: Seq<(Seq<u8>, DebouncedEvent)>,
    path: Seq<u8>,
    ready_at: u64,
) -> bool {
    forall|i: int|
        0 <= i < list.len() && same_path((#[trigger] list[i]).0, path) ==> list[i].1.ready_at
            >= ready_at
}

/// A later report makes no path ready sooner.
proof fn lemma_reports_keep_resting(
    list: Seq<(Seq<u8>, DebouncedEvent)>,
    event: WatchEvent,
    later: u64,
    n: nat,
    path: Seq<u8>,
    ready_at: u64,
)
    requires
        rests_until(list, path, ready_at),
        ready_at <= later,
        n <= event.paths@.len(),
    ensures
        rests_until(queued_paths(list, event, later, n), path, ready_at),
    decreases n,
{
    if n > 0 && event.kind != WatchEventKind::Other {
        let before = queued_paths(list, event, later, (n - 1) as nat);
        lemma_reports_keep_resting(list, event, later, (n - 1) as nat, path, ready_at);
        match planned_change(event.paths@[n - 1], kind_at(event, n - 1)) {
            Some((other, kind)) => {
                let change = DebouncedEvent { kind, ready_at: later };
                let after = inserted(before, other, change);
                lemma_find(before, entry_of::<DebouncedEvent>(other));
                assert forall|i: int| 0 <= i < after.len() && same_path(
                    (#[trigger] after[i]).0,
                    path,
                ) implies after[i].1.ready_at >= ready_at by {
                    if i < before.len() {
                        assert(after[i] == before[i] || after[i].1 == change);
                    }
                }
            },
            None => {},
        }
    }
}

/// Nor does any other input.
proof fn lemma_inputs_keep_resting(
    list: Seq<(Seq<u8>, DebouncedEvent)>,
    inputs: Seq<(WatcherInput, u64)>,
    path: Seq<u8>,
    since: u64,
)
    requires
        rests_until(list, path, (since + DEBOUNCE_NANOS) as u64),
        forall|i: int|
            0 <= i < inputs.len() ==> since <= (#[trigger] inputs[i]).1 && inputs[i].1
                + DEBOUNCE_NANOS <= u64::MAX,
        since + DEBOUNCE_NANOS <= u64::MAX,
    ensures
        rests_until(after_inputs(list, inputs), path, (since + DEBOUNCE_NANOS) as u64),
    decreases inputs.len(),
{
    if inputs.len() > 0 {
        let head = inputs.drop_last();
        let before = after_inputs(list, head);
        let (input, now) = inputs.last();
        assert(inputs[inputs.len() - 1] == (input, now));
        assert forall|i: int| 0 <= i < head.len() implies since <= (#[trigger] head[i]).1
            && head[i].1 + DEBOUNCE_NANOS <= u64::MAX by {
            assert(head[i] == inputs[i]);
        }
        lemma_inputs_keep_resting(list, head, path, since);
        match input {
            WatcherInput::Tick => {
                let after = before.filter(is_waiting(now));
                assert forall|i: int| 0 <= i < after.len() && same_path(
                    (#[trigger] after[i]).0,
                    path,
                ) implies after[i].1.ready_at >= (since + DEBOUNCE_NANOS) as u64 by {
                    assert(after.contains(after[i]));
                    before.lemma_filter_contains_rev(is_waiting(now), after[i]);
                    let j = choose|j: int| 0 <= j < before.len() && before[j] == after[i];
                    assert(same_path(before[j].0, path));
                }
            },
            WatcherInput::Report(event) => {
                lemma_reports_keep_resting(
                    before,
                    event,
                    (now + DEBOUNCE_NANOS) as u64,
                    event.paths@.len(),
                    path,
                    (since + DEBOUNCE_NANOS) as u64,
                );
            },
            _ => {},
        }
    }
}

/// No path of a report is passed on within the debounce time after it, whatever
/// was queued for it before and whatever inputs come in between: neither other
/// reports nor earlier ticks make it ready sooner.
pub proof fn law_reports_wait_for_quiet(
    list: Seq<(Seq<u8>, DebouncedEvent)>,
    event: WatchEvent,
    reported_at: u64,
    k: int,
    inputs: Seq<(WatcherInput, u64)>,
    last: WatcherInput,
    now: u64,
)
    requires
        one_per_path(list),
        event.kind != WatchEventKind::Other,
        0 <= k < event.paths@.len(),
        planned_path(event, k) is Some,
        forall|i: int|
            0 <= i < inputs.len() ==> reported_at <= (#[trigger] inputs[i]).1 && inputs[i].1
                + DEBOUNCE_NANOS <= u64::MAX,
        now < reported_at + DEBOUNCE_NANOS <= u64::MAX,
    ensures
        ({
            let queued = after_input(list, WatcherInput::Report(event), reported_at);
            let passed = passed_at(after_inputs(queued, inputs), last, now);
            forall|i: int|
                0 <= i < passed.len() ==> !same_path(
                    (#[trigger] passed[i])->Local_1,
                    planned_path(event, k)->0,
                )
        }),
{
    let ready_at = (reported_at + DEBOUNCE_NANOS) as u64;
    let queued = after_input(list, WatcherInput::Report(event), reported_at);
    let path = planned_path(event, k)->0;
    lemma_report_is_due(list, event, ready_at, event.paths@.len(), k);
    lemma_inputs_keep_resting(queued, inputs, path, reported_at);
    let after = after_inputs(queued, inputs);
    let ready = after.filter(is_ready(now));
    assert forall|i: int| 0 <= i < passed_at(after, last, now).len() implies !same_path(
        (#[trigger] passed_at(after, last, now)[i])->Local_1,
        path,
    ) by {
        assert(passed_at(after, last, now)[i] == passed_on(ready[i]));
        after.lemma_filter_pred(is_ready(now), i);
        assert(ready.contains(ready[i]));
        after.lemma_filter_contains_rev(is_ready(now), ready[i]);
        let j = choose|j: int| 0 <= j < after.len() && after[j] == ready[i];
        assert(after[j].1.ready_at <= now);
    }
}

/// Whether a report queues no change of the path.
pub open spec fn spares(event: WatchEvent, path: Seq<u8>) -> bool {
    event.kind == WatchEventKind::Other || forall|k: int|
        0 <= k < event.paths@.len() && (#[trigger] planned_path(event, k)) is Some ==> !same_path(
            planned_path(event, k)->0,
            path,
        )
}

/// Whether the queue holds the change of the path.
pub open spec fn holds_change(
    list: Seq<(Seq<u8>, DebouncedEvent)>,
    path: Seq<u8>,
    change: DebouncedEvent,
) -> bool {
    exists|i: int|
        0 <= i < list.len() && same_path((#[trigger] list[i]).0, path) && list[i].1 == change
}

/// A report on other paths keeps the change of a path.
proof fn lemma_other_reports_keep_changes(
    list: Seq<(Seq<u8>, DebouncedEvent)>,
    event: WatchEvent,
    ready_at: u64,
    n: nat,
    path: Seq<u8>,
    change: DebouncedEvent,
)
    requires
        holds_change(list, path, change),
        spares(event, path),
        n <= event.paths@.len(),
    ensures
        holds_change(queued_paths(list, event, ready_at, n), path, change),
    decreases n,
{
    if n > 0 && event.kind != WatchEventKind::Other {
        let before = queued_paths(list, event, ready_at, (n - 1) as nat);
        lemma_other_reports_keep_changes(list, event, ready_at, (n - 1) as nat, path, change);
        match planned_change(event.paths@[n - 1], kind_at(event, n - 1)) {
            Some((other, kind)) => {
                assert(planned_path(event, n - 1) == Some(other));
                let after = inserted(before, other, DebouncedEvent { kind, ready_at });
                lemma_find(before, entry_of::<DebouncedEvent>(other));
                let i = choose|i: int|
                    0 <= i < before.len() && same_path((#[trigger] before[i]).0, path)
                        && before[i].1 == change;
                assert(after[i] == before[i]);
            },
            None => {},
        }
    }
}

/// The change of a path that is left alone is not lost: whatever else is
/// reported, and however often the queue is looked at before its time, the first
/// look at its time passes it on.
pub proof fn law_resting_changes_are_not_lost(
    list: Seq<(Seq<u8>, DebouncedEvent)>,
    path: Seq<u8>,
    change: DebouncedEvent,
    inputs: Seq<(WatcherInput, u64)>,
    now: u64,
)
    requires
        holds_change(list, path, change),
        forall|i: int|
            0 <= i < inputs.len() ==> match (#[trigger] inputs[i]).0 {
                WatcherInput::Tick => inputs[i].1 < change.ready_at,
                WatcherInput::Report(event) => spares(event, path),
                _ => true,
            },
    ensures
        holds_change(after_inputs(list, inputs), path, change),
        change.ready_at <= now ==> exists|i: int|
            0 <= i < ready_events(after_inputs(list, inputs), now).len() && {
                let passed = #[trigger] ready_events(after_inputs(list, inputs), now)[i];
                passed == passed_on((passed->Local_1, change)) && same_path(passed->Local_1, path)
            },
    decreases inputs.len(),
{
    let after = after_inputs(list, inputs);
    if inputs.len() > 0 {
        let head = inputs.drop_last();
        let before = after_inputs(list, head);
        let (input, at) = inputs.last();
        assert(inputs[inputs.len() - 1] == (input, at));
        assert forall|i: int| 0 <= i < head.len() implies match (#[trigger] head[i]).0 {
            WatcherInput::Tick => head[i].1 < change.ready_at,
            WatcherInput::Report(event) => spares(event, path),
            _ => true,
        } by {
            assert(head[i] == inputs[i]);
        }
        law_resting_changes_are_not_lost(list, path, change, head, now);
        match input {
            WatcherInput::Tick => {
                let k = choose|k: int|
                    0 <= k < before.len() && same_path((#[trigger] before[k]).0, path)
                        && before[k].1 == change;
                before.lemma_filter_contains(is_waiting(at), k);
                let i = choose|i: int| 0 <= i < after.len() && after[i] == before[k];
                assert(same_path(after[i].0, path) && after[i].1 == change);
            },
            WatcherInput::Report(event) => {
                lemma_other_reports_keep_changes(
                    before,
                    event,
                    (at + DEBOUNCE_NANOS) as u64,
                    event.paths@.len(),
                    path,
                    change,
                );
            },
            _ => {},
        }
    }
    if change.ready_at <= now {
        let k = choose|k: int|
            0 <= k < after.len() && same_path((#[trigger] after[k]).0, path) && after[k].1
                == change;
        after.lemma_filter_contains(is_ready(now), k);
        let ready = after.filter(is_ready(now));
        let i = choose|i: int| 0 <= i < ready.len() && ready[i] == after[k];
        assert(ready_events(after, now)[i] == passed_on(after[k]));
    }
}

/// A path is passed on at most once at a time.
pub proof fn law_one_event_per_path(list: Seq<(Seq<u8>, DebouncedEvent)>, now: u64)
    requires
        one_per_path(list),
    ensures
        forall|i: int, j: int|
            0 <= i < j < ready_events(list, now).len() ==> !same_path(
                (#[trigger] ready_events(list, now)[i])->Local_1,
                (#[trigger] ready_events(list, now)[j])->Local_1,
            ),
{
    lemma_filter_one_per_path(list, is_ready(now));
    let ready = list.filter(is_ready(now));
    assert forall|i: int, j: int| 0 <= i < j < ready_events(list, now).len() implies !same_path(
        (#[trigger] ready_events(list, now)[i])->Local_1,
        (#[trigger] ready_events(list, now)[j])->Local_1,
    ) by {
        assert(ready_events(list, now)[i] == passed_on(ready[i]));
        assert(ready_events(list, now)[j] == passed_on(ready[j]));
        assert(components(ready[i].0) != components(ready[j].0));
    }
}

/// Whether a report means a change of the given kind for its path with the given
/// index: what is removed is deleted, and so is the first of the two paths of a
/// rename; anything else that is no folder is updated.
pub open spec fn means(event: WatchEvent, k: int, kind: DebouncedKind) -> bool {
    let moved_away = event.kind is Rename && event.paths@.len() == 2 && k == 0;
    &&& 0 <= k < event.paths@.len()
    &&& match kind {
        DebouncedKind::Delete => event.kind is Remove || moved_away,
        DebouncedKind::Upsert => {
            &&& event.kind is Create || event.kind is Modify || (event.kind is Rename
                && !moved_away)
            &&& !(event.paths@[k].facts.kind is Directory)
        },
    }
}

/// The path that the file watcher names with the given index, as it is known at run
/// time.
pub open spec fn named_path(event: WatchEvent, k: int) -> Seq<u8> {
    runtime_path(event.paths@[k].path@, event.paths@[k].facts)
}

/// Whether a report names the path with an index after the given one, and means a
/// change for it.
pub open spec fn named_again(event: WatchEvent, k: int, path: Seq<u8>) -> bool {
    exists|j: int, kind: DebouncedKind|
        k < j && #[trigger] means(event, j, kind) && same_path(named_path(event, j), path)
}

/// Whether the queue holds the change of the path, and no other change of it.
pub open spec fn holds_only(
    list: Seq<(Seq<u8>, DebouncedEvent)>,
    path: Seq<u8>,
    change: DebouncedEvent,
) -> bool {
    &&& holds_change(list, path, change)
    &&& forall|i: int|
        0 <= i < list.len() && same_path((#[trigger] list[i]).0, path) ==> list[i].1 == change
}

/// What a report means for a path is what is planned for it.
proof fn lemma_means(event: WatchEvent, k: int, kind: DebouncedKind)
    ensures
        means(event, k, kind) <==> 0 <= k < event.paths@.len() && event.kind
            != WatchEventKind::Other && planned_change(event.paths@[k], kind_at(event, k)) == Some(
            (named_path(event, k), kind),
        ),
{
}

/// Putting in the change of another path keeps what the queue holds.
proof fn lemma_insert_elsewhere(
    list: Seq<(Seq<u8>, DebouncedEvent)>,
    path: Seq<u8>,
    change: DebouncedEvent,
    other: Seq<u8>,
    value: DebouncedEvent,
)
    requires
        !same_path(other, path),
    ensures
        holds_change(list, path, change) <==> holds_change(
            inserted(list, other, value),
            path,
            change,
        ),
        holds_only(list, path, change) ==> holds_only(inserted(list, other, value), path, change),
{
    let after = inserted(list, other, value);
    lemma_find(list, entry_of::<DebouncedEvent>(other));
    assert forall|i: int| 0 <= i < after.len() && same_path((#[trigger] after[i]).0, path) implies i
        < list.len() && after[i] == list[i] by {}
    if holds_change(list, path, change) {
        let i = choose|i: int|
            0 <= i < list.len() && same_path((#[trigger] list[i]).0, path) && list[i].1 == change;
        assert(after[i] == list[i]);
    }
    if holds_change(after, path, change) {
        let i = choose|i: int|
            0 <= i < after.len() && same_path((#[trigger] after[i]).0, path) && after[i].1
                == change;
        assert(after[i] == list[i]);
    }
}

/// The queue after the first paths of a report, of which one is not named again.
proof fn lemma_report_queues(
    list: Seq<(Seq<u8>, DebouncedEvent)>,
    event: WatchEvent,
    ready_at: u64,
    n: nat,
    k: int,
    kind: DebouncedKind,
)
    requires
        one_per_path(list),
        means(event, k, kind),
        k < n <= event.paths@.len(),
        !named_again(event, k, named_path(event, k)),
    ensures
        holds_only(
            queued_paths(list, event, ready_at, n),
            named_path(event, k),
            DebouncedEvent { kind, ready_at },
        ),
    decreases n,
{
    let path = named_path(event, k);
    let change = DebouncedEvent { kind, ready_at };
    let before = queued_paths(list, event, ready_at, (n - 1) as nat);
    let after = queued_paths(list, event, ready_at, n);
    lemma_means(event, k, kind);
    if n == k + 1 {
        lemma_report_is_due(list, event, ready_at, (n - 1) as nat, -1);
        law_inserted_is_found(before, path, change);
        assert(after == inserted(before, path, change));
        let at = choose|at: int|
            0 <= at < after.len() && same_path((#[trigger] after[at]).0, path) && after[at].1
                == change;
        assert forall|i: int| 0 <= i < after.len() && same_path(
            (#[trigger] after[i]).0,
            path,
        ) implies after[i].1 == change by {
            if i < at {
                assert(components(after[i].0) != components(after[at].0));
            } else if at < i {
                assert(components(after[at].0) != components(after[i].0));
            }
        }
    } else {
        lemma_report_queues(list, event, ready_at, (n - 1) as nat, k, kind);
        match planned_change(event.paths@[n - 1], kind_at(event, n - 1)) {
            Some((other, other_kind)) => {
                lemma_means(event, n - 1, other_kind);
                assert(means(event, n - 1, other_kind));
                assert(!same_path(other, path));
                lemma_insert_elsewhere(
                    before,
                    path,
                    change,
                    other,
                    DebouncedEvent { kind: other_kind, ready_at },
                );
            },
            None => {},
        }
    }
}

/// After a report the queue holds, for each path that the report means a change for,
/// that change and no other, whatever was queued for the path before; where a path is
/// named twice, the later one counts. The change is due two seconds after the report.
pub proof fn law_the_last_change_counts(
    list: Seq<(Seq<u8>, DebouncedEvent)>,
    event: WatchEvent,
    now: u64,
    k: int,
    kind: DebouncedKind,
)
    requires
        one_per_path(list),
        now + DEBOUNCE_NANOS <= u64::MAX,
        means(event, k, kind),
        !named_again(event, k, named_path(event, k)),
    ensures
        holds_only(
            after_input(list, WatcherInput::Report(event), now),
            named_path(event, k),
            DebouncedEvent { kind, ready_at: (now + 2_000_000_000) as u64 },
        ),
{
    let ready_at = (now + DEBOUNCE_NANOS) as u64;
    lemma_report_queues(list, event, ready_at, event.paths@.len(), k, kind);
}

/// Whether a report means no change for the path.
pub open spec fn leaves_alone(event: WatchEvent, path: Seq<u8>) -> bool {
    !named_again(event, -1, path)
}

/// A report leaves the paths alone that it means no change for: what was queued for
/// them stays queued, and nothing is queued for them that was not.
proof fn lemma_report_leaves_alone(
    list: Seq<(Seq<u8>, DebouncedEvent)>,
    event: WatchEvent,
    ready_at: u64,
    n: nat,
    path: Seq<u8>,
    change: DebouncedEvent,
)
    requires
        leaves_alone(event, path),
        n <= event.paths@.len(),
    ensures
        holds_change(queued_paths(list, event, ready_at, n), path, change) <==> holds_change(
            list,
            path,
            change,
        ),
    decreases n,
{
    if n > 0 && event.kind != WatchEventKind::Other {
        let before = queued_paths(list, event, ready_at, (n - 1) as nat);
        lemma_report_leaves_alone(list, event, ready_at, (n - 1) as nat, path, change);
        match planned_change(event.paths@[n - 1], kind_at(event, n - 1)) {
            Some((other, kind)) => {
                lemma_means(event, n - 1, kind);
                assert(means(event, n - 1, kind));
                assert(!same_path(other, path));
                lemma_insert_elsewhere(
                    before,
                    path,
                    change,
                    other,
                    DebouncedEvent { kind, ready_at },
                );
            },
            None => {},
        }
    }
}

/// A report leaves the paths alone that it means no change for: what was queued for
/// them stays queued, and nothing is queued for them that was not.
pub proof fn law_reports_leave_other_paths_alone(
    list: Seq<(Seq<u8>, DebouncedEvent)>,
    event: WatchEvent,
    now: u64,
    path: Seq<u8>,
    change: DebouncedEvent,
)
    requires
        leaves_alone(event, path),
    ensures
        holds_change(after_input(list, WatcherInput::Report(event), now), path, change)
            <==> holds_change(list, path, change),
{
    lemma_report_leaves_alone(
        list,
        event,
        (now + DEBOUNCE_NANOS) as u64,
        event.paths@.len(),
        path,
        change,
    );
}

/// A report that means no change for a path queues none of it.
proof fn lemma_leaves_alone_spares(event: WatchEvent, path: Seq<u8>)
    requires
        leaves_alone(event, path),
    ensures
        spares(event, path),
{
    assert forall|k: int|
        0 <= k < event.paths@.len() && event.kind != WatchEventKind::Other && (
        #[trigger] planned_path(event, k)) is Some implies !same_path(
        planned_path(event, k)->0,
        path,
    ) by {
        let kind = kind_at(event, k);
        lemma_means(event, k, kind);
        assert(means(event, k, kind));
    }
}

/// The event by which a change of a path is passed on.
pub open spec fn event_of(kind: DebouncedKind, path: Seq<u8>) -> SyncEventView {
    match kind {
        DebouncedKind::Upsert => SyncEventView::Local(LocalFileEventKind::Upsert, path),
        DebouncedKind::Delete => SyncEventView::Local(LocalFileEventKind::Delete, path),
    }
}

/// The last change that is reported of a path is what is passed on of it: a look at
/// the queue two seconds later gives one event of that path, and it is of that kind,
/// whatever was queued before and whatever is reported of other paths meanwhile.
pub proof fn law_the_last_change_is_passed_on(
    list: Seq<(Seq<u8>, DebouncedEvent)>,
    event: WatchEvent,
    reported_at: u64,
    k: int,
    kind: DebouncedKind,
    inputs: Seq<(WatcherInput, u64)>,
    now: u64,
)
    requires
        one_per_path(list),
        means(event, k, kind),
        !named_again(event, k, named_path(event, k)),
        reported_at + 2_000_000_000 <= now,
        forall|i: int|
            0 <= i < inputs.len() ==> match (#[trigger] inputs[i]).0 {
                WatcherInput::Tick => inputs[i].1 < reported_at + 2_000_000_000,
                WatcherInput::Report(other) => leaves_alone(other, named_path(event, k)),
                _ => true,
            },
    ensures
        ({
            let queued = after_input(list, WatcherInput::Report(event), reported_at);
            let passed = passed_at(after_inputs(queued, inputs), WatcherInput::Tick, now);
            exists|i: int|
                0 <= i < passed.len() && (#[trigger] passed[i]) == event_of(
                    kind,
                    passed[i]->Local_1,
                ) && same_path(passed[i]->Local_1, named_path(event, k))
        }),
{
    let path = named_path(event, k);
    let change = DebouncedEvent { kind, ready_at: (reported_at + 2_000_000_000) as u64 };
    let queued = after_input(list, WatcherInput::Report(event), reported_at);
    law_the_last_change_counts(list, event, reported_at, k, kind);
    assert forall|i: int| 0 <= i < inputs.len() implies match (#[trigger] inputs[i]).0 {
        WatcherInput::Tick => inputs[i].1 < change.ready_at,
        WatcherInput::Report(other) => spares(other, path),
        _ => true,
    } by {
        match inputs[i].0 {
            WatcherInput::Report(other) => lemma_leaves_alone_spares(other, path),
            _ => {},
        }
    }
    law_resting_changes_are_not_lost(queued, path, change, inputs, now);
    let passed = ready_events(after_inputs(queued, inputs), now);
    let i = choose|i: int|
        0 <= i < passed.len() && {
            let one = #[trigger] passed[i];
            one == passed_on((one->Local_1, change)) && same_path(one->Local_1, path)
        };
    let told = passed_at(after_inputs(queued, inputs), WatcherInput::Tick, now);
    assert(told == passed);
    assert(told[i] == event_of(kind, told[i]->Local_1) && same_path(told[i]->Local_1, path));
}

/// Whether an event passes on the entry of the queue.
pub open spec fn passes_on(event: SyncEventView, entry: (Seq<u8>, DebouncedEvent)) -> bool {
    event == event_of(entry.1.kind, entry.0)
}

/// A look at the queue passes on what is due, all of it and nothing else, and leaves
/// what is not due in the queue.
pub proof fn law_ticks_pass_on_what_is_due(
    list: Seq<(Seq<u8>, DebouncedEvent)>,
    now: u64,
    entry: (Seq<u8>, DebouncedEvent),
    event: SyncEventView,
)
    ensures
        list.contains(entry) && entry.1.ready_at <= now ==> exists|i: int|
            0 <= i < passed_at(list, WatcherInput::Tick, now).len() && passes_on(
                #[trigger] passed_at(list, WatcherInput::Tick, now)[i],
                entry,
            ),
        passed_at(list, WatcherInput::Tick, now).contains(event) ==> exists|j: int|
            0 <= j < list.len() && list[j].1.ready_at <= now && passes_on(
                event,
                #[trigger] list[j],
            ),
        after_input(list, WatcherInput::Tick, now).contains(entry) <==> list.contains(entry)
            && entry.1.ready_at > now,
{
    let ready = list.filter(is_ready(now));
    let waiting = list.filter(is_waiting(now));
    let passed = passed_at(list, WatcherInput::Tick, now);
    assert(passed == ready.map_values(|one: (Seq<u8>, DebouncedEvent)| passed_on(one)));
    if list.contains(entry) {
        let j = choose|j: int| 0 <= j < list.len() && list[j] == entry;
        if entry.1.ready_at <= now {
            list.lemma_filter_contains(is_ready(now), j);
            let i = choose|i: int| 0 <= i < ready.len() && ready[i] == entry;
            assert(passed[i] == passed_on(ready[i]));
        } else {
            list.lemma_filter_contains(is_waiting(now), j);
        }
    }
    if passed.contains(event) {
        let i = choose|i: int| 0 <= i < passed.len() && passed[i] == event;
        assert(passed[i] == passed_on(ready[i]));
        list.lemma_filter_pred(is_ready(now), i);
        assert(ready.contains(ready[i]));
        list.lemma_filter_contains_rev(is_ready(now), ready[i]);
        let j = choose|j: int| 0 <= j < list.len() && list[j] == ready[i];
        assert(passes_on(event, list[j]));
    }
    if waiting.contains(entry) {
        let i = choose|i: int| 0 <= i < waiting.len() && waiting[i] == entry;
        list.lemma_filter_pred(is_waiting(now), i);
        list.lemma_filter_contains_rev(is_waiting(now), entry);
    }
}

} // verus!
