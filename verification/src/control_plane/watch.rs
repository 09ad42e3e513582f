//! Watching the configuration file: a burst of changes leads to one reload.
use vstd::prelude::*;

verus! {

/// What the watcher is waiting for.
#[derive(Clone, Copy, Debug, PartialEq, Eq, Structural)]
pub enum Watch {
    /// For a change.
    Idle,
    /// For the changes to settle.
    Settling,
}

/// What the watcher is told.
#[derive(Clone, Copy, Debug, PartialEq, Eq, Structural)]
pub enum WatchEvent {
    /// The file has changed.
    Changed,
    /// Nothing has changed for a while.
    Quiet,
    /// There will be no more changes.
    Closed,
}

/// What is to be done next.
#[derive(Clone, Copy, Debug, PartialEq, Eq, Structural)]
pub enum WatchAction {
    /// Wait for the next change.
    Wait,
    /// Wait for a while and see whether there are more changes.
    Pause,
    /// Reload the configuration, and then wait for the next change.
    Reload,
    /// End.
    Stop,
}

/// What the watcher waits for next, and what is to be done.
pub open spec fn watched(watch: Watch, event: WatchEvent) -> (Watch, WatchAction) {
    match event {
        WatchEvent::Closed => (watch, WatchAction::Stop),
        WatchEvent::Changed => (Watch::Settling, WatchAction::Pause),
        WatchEvent::Quiet => match watch {
            Watch::Idle => (Watch::Idle, WatchAction::Wait),
            Watch::Settling => (Watch::Idle, WatchAction::Reload),
        },
    }
}

impl Watch {
    /// What the watcher waits for next, and what is to be done.
    pub fn step(self, event: WatchEvent) -> (r: (Watch, WatchAction))
        ensures
            r == watched(self, event),
    {
        match event {
            WatchEvent::Closed => (self, WatchAction::Stop),
            WatchEvent::Changed => (Watch::Settling, WatchAction::Pause),
            WatchEvent::Quiet => match self {
                Watch::Idle => (Watch::Idle, WatchAction::Wait),
                Watch::Settling => (Watch::Idle, WatchAction::Reload),
            },
        }
    }
}

/// How many reloads a run of events leads to.
pub open spec fn reloads(watch: Watch, events: Seq<WatchEvent>) -> nat
    decreases events.len(),
{
    if events.len() == 0 {
        0
    } else {
        let (next, action) = watched(watch, events[0]);
        if action == WatchAction::Stop {
            0
        } else {
            (if action == WatchAction::Reload {
                1nat
            } else {
                0nat
            }) + reloads(next, events.skip(1))
        }
    }
}

/// A burst of changes leads to one reload, once nothing changes any more, however many
/// changes there are.
pub proof fn burst_leads_to_one_reload(changes: Seq<WatchEvent>)
    requires
        changes.len() > 0,
        forall|i: int| 0 <= i < changes.len() ==> #[trigger] changes[i] == WatchEvent::Changed,
    ensures
        reloads(Watch::Idle, changes) == 0,
        reloads(Watch::Idle, changes.push(WatchEvent::Quiet)) == 1,
{
    lemma_settling(changes.skip(1));
    assert(changes.push(WatchEvent::Quiet).skip(1) =~= changes.skip(1).push(WatchEvent::Quiet));
    assert(changes[0] == WatchEvent::Changed);
    assert(changes.push(WatchEvent::Quiet)[0] == WatchEvent::Changed);
}

proof fn lemma_settling(changes: Seq<WatchEvent>)
    requires
        forall|i: int| 0 <= i < changes.len() ==> #[trigger] changes[i] == WatchEvent::Changed,
    ensures
        reloads(Watch::Settling, changes) == 0,
        reloads(Watch::Settling, changes.push(WatchEvent::Quiet)) == 1,
    decreases changes.len(),
{
    let more = changes.push(WatchEvent::Quiet);
    if changes.len() == 0 {
        assert(more.skip(1).len() == 0);
        assert(reloads(Watch::Idle, more.skip(1)) == 0);
    } else {
        assert(changes[0] == WatchEvent::Changed);
        assert(more[0] == WatchEvent::Changed);
        assert forall|i: int| 0 <= i < changes.skip(1).len() implies #[trigger] changes.skip(1)[i]
            == WatchEvent::Changed by {
            assert(changes[i + 1] == WatchEvent::Changed);
        }
        lemma_settling(changes.skip(1));
        assert(more.skip(1) =~= changes.skip(1).push(WatchEvent::Quiet));
    }
}

/// A change puts off the reload, whatever the watcher waits for; quiet leads to a reload if
/// and only if there was a change since the last one; the end of the changes ends the
/// watching without a reload.
pub proof fn reloads_follow_changes(watch: Watch)
    ensures
        watched(watch, WatchEvent::Changed) == (Watch::Settling, WatchAction::Pause),
        watched(watch, WatchEvent::Quiet).1 == WatchAction::Reload <==> watch == Watch::Settling,
        watched(watch, WatchEvent::Quiet).0 == Watch::Idle,
        watched(Watch::Idle, WatchEvent::Quiet).1 == WatchAction::Wait,
        watched(watch, WatchEvent::Closed).1 == WatchAction::Stop,
{
}

/// Without a change there is no reload, however long it is quiet.
pub proof fn no_reload_without_a_change(events: Seq<WatchEvent>)
    requires
        forall|i: int| 0 <= i < events.len() ==> #[trigger] events[i] != WatchEvent::Changed,
    ensures
        reloads(Watch::Idle, events) == 0,
    decreases events.len(),
{
    if events.len() > 0 {
        assert(events[0] != WatchEvent::Changed);
        let rest = events.skip(1);
        assert forall|i: int| 0 <= i < rest.len() implies #[trigger] rest[i]
            != WatchEvent::Changed by {
            assert(rest[i] == events[i + 1]);
        }
        no_reload_without_a_change(rest);
    }
}

/// Each burst of changes leads to a reload of its own.
pub proof fn every_burst_leads_to_a_reload(changes: Seq<WatchEvent>, later: Seq<WatchEvent>)
    requires
        changes.len() > 0,
        forall|i: int| 0 <= i < changes.len() ==> #[trigger] changes[i] == WatchEvent::Changed,
    ensures
        reloads(Watch::Idle, changes.push(WatchEvent::Quiet) + later) == 1 + reloads(
            Watch::Idle,
            later,
        ),
{
    let all = changes.push(WatchEvent::Quiet) + later;
    assert(changes[0] == WatchEvent::Changed);
    assert(all[0] == WatchEvent::Changed);
    assert(all.skip(1) =~= changes.skip(1).push(WatchEvent::Quiet) + later);
    lemma_settling_then(changes.skip(1), later);
}

proof fn lemma_settling_then(changes: Seq<WatchEvent>, later: Seq<WatchEvent>)
    requires
        forall|i: int| 0 <= i < changes.len() ==> #[trigger] changes[i] == WatchEvent::Changed,
    ensures
        reloads(Watch::Settling, changes.push(WatchEvent::Quiet) + later) == 1 + reloads(
            Watch::Idle,
            later,
        ),
    decreases changes.len(),
{
    let all = changes.push(WatchEvent::Quiet) + later;
    if changes.len() == 0 {
        assert(all[0] == WatchEvent::Quiet);
        assert(all.skip(1) =~= later);
    } else {
        assert(changes[0] == WatchEvent::Changed);
        assert(all[0] == WatchEvent::Changed);
        let rest = changes.skip(1);
        assert forall|i: int| 0 <= i < rest.len() implies #[trigger] rest[i]
            == WatchEvent::Changed by {
            assert(rest[i] == changes[i + 1]);
        }
        assert(all.skip(1) =~= rest.push(WatchEvent::Quiet) + later);
        lemma_settling_then(rest, later);
    }
}

} // verus!
