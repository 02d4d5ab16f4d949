//! The refresh coordinator: the owner of the one snapshot that readers see.
//!
//! A refresh is triggered by the periodic timer or by a caller, runs outside
//! the coordinator, and comes back with a new snapshot or with a failure. The
//! coordinator is the state machine over these events. A snapshot is replaced
//! as a whole or not at all, and a failure replaces nothing.

use crate::data::FetchError;
use crate::dates::DateRange;
use vstd::prelude::*;

verus! {

/// What set a refresh off.
pub enum RefreshTrigger {
    /// The periodic timer: the query has no explicit date bounds.
    Periodic,
    /// A caller, with the optional date bounds that it gave.
    Manual(DateRange),
}

/// Whether a refresh is under way.
#[derive(Clone, Copy, Debug, PartialEq, Eq, Structural)]
pub enum RefreshState {
    /// No refresh is in flight.
    Idle,
    /// At least one refresh is in flight.
    Refreshing,
}

/// One step in the life of a coordinator.
pub enum RefreshEvent<S> {
    /// A refresh was triggered.
    Triggered,
    /// A refresh came back with a snapshot.
    Completed(S),
    /// A refresh came back with a failure.
    Failed(FetchError),
}

/// The state of a coordinator: the snapshot that readers see and the number
/// of refreshes in flight.
pub struct Coordination<S> {
    pub current: S,
    pub in_flight: u64,
}

/// The query bounds that a trigger asks for.
pub open spec fn range_of(trigger: RefreshTrigger) -> DateRange {
    match trigger {
        RefreshTrigger::Periodic => DateRange { begin_at: None, end_at: None },
        RefreshTrigger::Manual(range) => range,
    }
}

/// The event that the result of a refresh stands for.
pub open spec fn event_of<S>(result: Result<S, FetchError>) -> RefreshEvent<S> {
    match result {
        Ok(snapshot) => RefreshEvent::Completed(snapshot),
        Err(error) => RefreshEvent::Failed(error),
    }
}

/// The state after one event.
///
/// A trigger counts one more refresh in flight, a result one less; the count
/// stays within its bounds. Only a completed refresh touches the snapshot,
/// and it replaces it whole.
pub open spec fn step<S>(state: Coordination<S>, event: RefreshEvent<S>) -> Coordination<S> {
    match event {
        RefreshEvent::Triggered => Coordination {
            current: state.current,
            in_flight: if state.in_flight < u64::MAX {
                (state.in_flight + 1) as u64
            } else {
                state.in_flight
            },
        },
        RefreshEvent::Completed(snapshot) => Coordination {
            current: snapshot,
            in_flight: if state.in_flight > 0 {
                (state.in_flight - 1) as u64
            } else {
                0
            },
        },
        RefreshEvent::Failed(_) => Coordination {
            current: state.current,
            in_flight: if state.in_flight > 0 {
                (state.in_flight - 1) as u64
            } else {
                0
            },
        },
    }
}

/// The state after a sequence of events, in order.
pub open spec fn run<S>(state: Coordination<S>, events: Seq<RefreshEvent<S>>) -> Coordination<S>
    decreases events.len(),
{
    if events.len() == 0 {
        state
    } else {
        step(run(state, events.drop_last()), events.last())
    }
}

/// The coordinator of one shared snapshot of type `S`.
pub struct RefreshCoordinator<S> {
    current: S,
    in_flight: u64,
}

impl<S> View for RefreshCoordinator<S> {
    type V = Coordination<S>;

    closed spec fn view(&self) -> Coordination<S> {
        Coordination { current: self.current, in_flight: self.in_flight }
    }
}

impl<S> RefreshCoordinator<S> {
    /// Creates an idle coordinator that shows `initial`.
    pub fn new(initial: S) -> (coordinator: Self)
        ensures
            coordinator@ == (Coordination { current: initial, in_flight: 0 }),
    {
        RefreshCoordinator { current: initial, in_flight: 0 }
    }

    /// The snapshot that readers see.
    pub fn snapshot(&self) -> (snapshot: &S)
        ensures
            *snapshot == self@.current,
    {
        &self.current
    }

    /// Whether a refresh is in flight.
    pub fn state(&self) -> (state: RefreshState)
        ensures
            state == if self@.in_flight == 0 {
                RefreshState::Idle
            } else {
                RefreshState::Refreshing
            },
    {
        if self.in_flight == 0 {
            RefreshState::Idle
        } else {
            RefreshState::Refreshing
        }
    }

    /// Starts a refresh and tells which date bounds it is to query.
    ///
    /// A refresh may start while others are in flight. The snapshot stays as
    /// it is.
    pub fn trigger(&mut self, trigger: RefreshTrigger) -> (range: DateRange)
        ensures
            final(self)@ == step(old(self)@, RefreshEvent::Triggered),
            range == range_of(trigger),
    {
        if self.in_flight < u64::MAX {
            self.in_flight = self.in_flight + 1;
        }
        match trigger {
            RefreshTrigger::Periodic => DateRange { begin_at: None, end_at: None },
            RefreshTrigger::Manual(range) => range,
        }
    }

    /// Ends a refresh with its result.
    ///
    /// A new snapshot replaces the current one as a whole. A failure leaves
    /// the current one untouched: readers keep the last good snapshot.
    pub fn complete(&mut self, result: Result<S, FetchError>)
        ensures
            final(self)@ == step(old(self)@, event_of(result)),
    {
        if self.in_flight > 0 {
            self.in_flight = self.in_flight - 1;
        }
        match result {
            Ok(snapshot) => {
                self.current = snapshot;
            },
            Err(_) => {},
        }
    }
}

/// Whether an event brings a new snapshot.
pub open spec fn is_completion<S>(event: RefreshEvent<S>) -> bool {
    event is Completed
}

/// Failure keeps the last good snapshot: after a refresh has completed with
/// `snapshot`, any number of triggers and failed refreshes leave `snapshot`
/// in place.
pub proof fn law_failures_keep_the_last_snapshot<S>(
    state: Coordination<S>,
    snapshot: S,
    later: Seq<RefreshEvent<S>>,
)
    requires
        forall|i: int| 0 <= i < later.len() ==> !is_completion(#[trigger] later[i]),
    ensures
        run(step(state, RefreshEvent::Completed(snapshot)), later).current == snapshot,
    decreases later.len(),
{
    if later.len() > 0 {
        let front = later.drop_last();
        assert forall|i: int| 0 <= i < front.len() implies !is_completion(#[trigger] front[i]) by {
            assert(front[i] == later[i]);
        }
        law_failures_keep_the_last_snapshot(state, snapshot, front);
        assert(!is_completion(later[later.len() - 1]));
    }
}

/// Readers never see a snapshot in the making: after any sequence of events
/// the current snapshot is the one the coordinator started with or, whole,
/// the one that a completed refresh brought.
pub proof fn law_snapshot_is_never_partial<S>(state: Coordination<S>, events: Seq<RefreshEvent<S>>)
    ensures
        run(state, events).current == state.current || exists|i: int|
            0 <= i < events.len() && #[trigger] events[i] == RefreshEvent::Completed(
                run(state, events).current,
            ),
    decreases events.len(),
{
    if events.len() > 0 {
        let front = events.drop_last();
        let last = events.last();
        law_snapshot_is_never_partial(state, front);
        match last {
            RefreshEvent::Completed(snapshot) => {
                assert(events[events.len() - 1] == RefreshEvent::Completed(snapshot));
            },
            _ => {
                let kept = run(state, front).current;
                assert(run(state, events).current == kept);
                if kept != state.current {
                    let i = choose|i: int|
                        0 <= i < front.len() && #[trigger] front[i] == RefreshEvent::Completed(
                            kept,
                        );
                    assert(events[i] == front[i]);
                }
            },
        }
    }
}

/// What holds of the first snapshot and of every snapshot that a refresh
/// brings holds of every snapshot that readers see.
pub proof fn law_visible_snapshots_are_well_formed<S>(
    state: Coordination<S>,
    events: Seq<RefreshEvent<S>>,
    well_formed: spec_fn(S) -> bool,
)
    requires
        well_formed(state.current),
        forall|i: int|
            0 <= i < events.len() ==> (#[trigger] events[i] matches RefreshEvent::Completed(
                snapshot,
            ) ==> well_formed(snapshot)),
    ensures
        well_formed(run(state, events).current),
{
    law_snapshot_is_never_partial(state, events);
}

} // verus!
