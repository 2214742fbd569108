//! Event logs, and the transitions that are written to them.
//!
//! A transition holds the events that lead to a state. The state can only be had by saving the
//! transition, that is by writing its events to a log first.
use vstd::prelude::*;

verus! {

/// An event that can be copied out of a log.
pub trait LogEvent: Sized {
    /// A copy of the event.
    fn copy_event(&self) -> (r: Self)
        ensures
            r == *self,
    ;
}

/// What can be done with a log, and fail.
pub enum LogOperation {
    Save,
    Load,
    Close,
}

/// One event log.
pub trait SessionPersister: Sized {
    type SessionEvent;

    /// What goes wrong when the log cannot be read or written.
    type InternalStorageError;

    /// The events in the log.
    spec fn events(&self) -> Seq<Self::SessionEvent>;

    /// Whether the log is closed.
    spec fn closed(&self) -> bool;

    /// Whether the storage never fails.
    spec fn reliable(&self) -> bool;

    /// Whether the error is one that the operation gives.
    spec fn failed(operation: LogOperation, e: Self::InternalStorageError) -> bool;

    /// Appends an event.
    fn save_event(&mut self, event: Self::SessionEvent) -> (r: Result<
        (),
        Self::InternalStorageError,
    >)
        ensures
            final(self).closed() == old(self).closed(),
            final(self).reliable() == old(self).reliable(),
            old(self).reliable() ==> r is Ok,
            r is Ok ==> final(self).events() == old(self).events().push(event),
            r matches Err(e) ==> Self::failed(LogOperation::Save, e) && final(self).events() == old(
                self,
            ).events(),
    ;

    /// All events, oldest first.
    fn load(&self) -> (r: Result<Vec<Self::SessionEvent>, Self::InternalStorageError>)
        ensures
            self.reliable() ==> r is Ok,
            match r {
                Ok(events) => events@ == self.events(),
                Err(e) => Self::failed(LogOperation::Load, e),
            },
    ;

    /// Closes the log.
    fn close(&mut self) -> (r: Result<(), Self::InternalStorageError>)
        ensures
            final(self).events() == old(self).events(),
            final(self).reliable() == old(self).reliable(),
            old(self).reliable() ==> r is Ok,
            r is Ok ==> final(self).closed(),
            r matches Err(e) ==> Self::failed(LogOperation::Close, e) && final(self).closed() == old(
                self,
            ).closed(),
    ;
}

/// A log in memory.
#[derive(Debug, PartialEq, Eq)]
pub struct InMemoryPersister<E> {
    log: Vec<E>,
    is_closed: bool,
}

/// The error of a storage that does not fail. There is no way to make one.
#[derive(Debug, Clone, Copy, PartialEq, Eq)]
pub struct NoStorageError(());

impl<E> InMemoryPersister<E> {
    /// An empty log.
    pub fn new() -> (r: Self)
        ensures
            r.spec_log() == Seq::<E>::empty(),
            !r.spec_is_closed(),
    {
        InMemoryPersister { log: Vec::new(), is_closed: false }
    }

    /// The events in the log.
    pub closed spec fn spec_log(self) -> Seq<E> {
        self.log@
    }

    /// Whether the log is closed.
    pub closed spec fn spec_is_closed(self) -> bool {
        self.is_closed
    }

    /// The events in the log.
    pub fn log(&self) -> (r: &Vec<E>)
        ensures
            r@ == self.spec_log(),
    {
        &self.log
    }

    /// Whether the log is closed.
    pub fn is_closed(&self) -> (r: bool)
        ensures
            r == self.spec_is_closed(),
    {
        self.is_closed
    }
}

impl<E> Default for InMemoryPersister<E> {
    fn default() -> (r: Self)
        ensures
            r.spec_log() == Seq::<E>::empty(),
            !r.spec_is_closed(),
    {
        Self::new()
    }
}

impl<E: LogEvent> SessionPersister for InMemoryPersister<E> {
    type SessionEvent = E;

    type InternalStorageError = NoStorageError;

    open spec fn events(&self) -> Seq<E> {
        self.spec_log()
    }

    open spec fn closed(&self) -> bool {
        self.spec_is_closed()
    }

    open spec fn reliable(&self) -> bool {
        true
    }

    open spec fn failed(operation: LogOperation, e: NoStorageError) -> bool {
        false
    }

    fn save_event(&mut self, event: E) -> (r: Result<(), NoStorageError>) {
        self.log.push(event);
        Ok(())
    }

    fn load(&self) -> (r: Result<Vec<E>, NoStorageError>) {
        let mut events: Vec<E> = Vec::new();
        let mut i: usize = 0;
        while i < self.log.len()
            invariant
                i <= self.log@.len(),
                events@ == self.log@.take(i as int),
            decreases self.log@.len() - i,
        {
            events.push(self.log[i].copy_event());
            assert(events@ =~= self.log@.take(i + 1));
            i += 1;
        }
        assert(self.log@.take(i as int) =~= self.log@);
        Ok(events)
    }

    fn close(&mut self) -> (r: Result<(), NoStorageError>) {
        self.is_closed = true;
        Ok(())
    }
}

/// A failure of the protocol: one that may pass, or one that ends the session.
#[derive(Debug, PartialEq, Eq)]
pub enum ApiError<Failure> {
    Transient(Failure),
    Fatal(Failure),
}

/// Why saving a transition gave no state.
#[derive(Debug, PartialEq, Eq)]
pub enum PersistedError<Failure, StorageErr> {
    /// The transition itself is a failure.
    Api(ApiError<Failure>),
    /// The log could not be written.
    Storage(StorageErr),
}

/// The outcome of a transition that may make no progress.
#[derive(Debug, PartialEq, Eq)]
pub enum OptionalTransitionOutcome<NextState, CurrentState> {
    Progress(NextState),
    Stasis(CurrentState),
}

/// Whether a log is another one with some events appended.
pub open spec fn appended<P: SessionPersister>(
    before: P,
    after: P,
    events: Seq<P::SessionEvent>,
) -> bool {
    &&& after.events() == before.events() + events
    &&& after.closed() == before.closed()
    &&& after.reliable() == before.reliable()
}

/// Whether a log is another one with one event appended, and closed.
pub open spec fn appended_and_closed<P: SessionPersister>(
    before: P,
    after: P,
    event: P::SessionEvent,
) -> bool {
    &&& after.events() == before.events().push(event)
    &&& after.closed()
    &&& after.reliable() == before.reliable()
}

/// Whether an attempt to append some events, and then perhaps to close the log, failed with an
/// error: that of the first event that could not be written, after those before it were, or that
/// of closing after all of them were.
pub open spec fn partly_appended<P: SessionPersister>(
    before: P,
    after: P,
    events: Seq<P::SessionEvent>,
    closing: bool,
    e: P::InternalStorageError,
) -> bool {
    &&& !before.reliable()
    &&& !after.reliable()
    &&& after.closed() == before.closed()
    &&& exists|n: int|
        {
            &&& 0 <= n <= events.len()
            &&& after.events() == before.events() + #[trigger] events.take(n)
            &&& if n < events.len() {
                P::failed(LogOperation::Save, e)
            } else {
                closing && P::failed(LogOperation::Close, e)
            }
        }
}

/// A transition that always succeeds.
#[derive(Debug, PartialEq, Eq)]
pub struct NextStateTransition<Event, NextState> {
    event: Event,
    state: NextState,
}

impl<Event, NextState> NextStateTransition<Event, NextState> {
    /// The event that leads to the state.
    pub closed spec fn spec_event(self) -> Event {
        self.event
    }

    /// The state.
    pub closed spec fn spec_state(self) -> NextState {
        self.state
    }

    pub fn success(event: Event, state: NextState) -> (r: Self)
        ensures
            r.spec_event() == event,
            r.spec_state() == state,
    {
        NextStateTransition { event, state }
    }

    /// Writes the event to the log and gives the state.
    pub fn save<P: SessionPersister<SessionEvent = Event>>(self, persister: &mut P) -> (r: Result<
        NextState,
        P::InternalStorageError,
    >)
        ensures
            final(persister).reliable() == old(persister).reliable(),
            final(persister).closed() == old(persister).closed(),
            old(persister).reliable() ==> r is Ok,
            match r {
                Ok(state) => state == self.spec_state() && final(persister).events() == old(persister).events().push(self.spec_event()),
                Err(e) => P::failed(LogOperation::Save, e) && final(persister).events() == old(
                    persister,
                ).events(),
            },
    {
        match persister.save_event(self.event) {
            Ok(()) => Ok(self.state),
            Err(e) => Err(e),
        }
    }
}

/// A transition that succeeds, fails for now, or ends the session.
#[derive(Debug, PartialEq, Eq)]
pub enum MaybeFatalTransition<Event, NextState, Failure> {
    Success(Event, NextState),
    Transient(Failure),
    Fatal(Event, Failure),
}

impl<Event, NextState, Failure> MaybeFatalTransition<Event, NextState, Failure> {
    pub fn success(event: Event, state: NextState) -> (r: Self)
        ensures
            r == MaybeFatalTransition::<Event, NextState, Failure>::Success(event, state),
    {
        MaybeFatalTransition::Success(event, state)
    }

    pub fn transient(error: Failure) -> (r: Self)
        ensures
            r == MaybeFatalTransition::<Event, NextState, Failure>::Transient(error),
    {
        MaybeFatalTransition::Transient(error)
    }

    pub fn fatal(event: Event, error: Failure) -> (r: Self)
        ensures
            r == MaybeFatalTransition::<Event, NextState, Failure>::Fatal(event, error),
    {
        MaybeFatalTransition::Fatal(event, error)
    }

    /// Writes what the transition calls for to the log: the event of a success, nothing for a
    /// passing failure, the event of the end and the closing otherwise.
    pub fn save<P: SessionPersister<SessionEvent = Event>>(self, persister: &mut P) -> (r: Result<
        NextState,
        PersistedError<Failure, P::InternalStorageError>,
    >)
        ensures
            match r {
                Err(PersistedError::Storage(_)) => !old(persister).reliable(),
                _ => true,
            },
            final(persister).reliable() == old(persister).reliable(),
            match self {
                MaybeFatalTransition::Success(event, state) => match r {
                    Ok(next) => next == state && appended(
                        *old(persister),
                        *final(persister),
                        seq![event],
                    ),
                    Err(failure) => failure matches PersistedError::Storage(e) && partly_appended(
                        *old(persister),
                        *final(persister),
                        seq![event],
                        false,
                        e,
                    ),
                },
                MaybeFatalTransition::Transient(error) => r == Err::<NextState, _>(
                    PersistedError::<Failure, P::InternalStorageError>::Api(ApiError::Transient(error)),
                ) && *final(persister) == *old(persister),
                MaybeFatalTransition::Fatal(event, error) => match r {
                    Ok(_) => false,
                    Err(PersistedError::Api(e)) => e == ApiError::Fatal(error)
                        && appended_and_closed(*old(persister), *final(persister), event),
                    Err(PersistedError::Storage(e)) => partly_appended(
                        *old(persister),
                        *final(persister),
                        seq![event],
                        true,
                        e,
                    ),
                },
            },
    {
        let ghost start = persister.events();
        match self {
            MaybeFatalTransition::Success(event, state) => match persister.save_event(event) {
                Ok(()) => {
                    assert(start.push(event) =~= start + seq![event]);
                    Ok(state)
                },
                Err(e) => {
                    assert(start =~= start + seq![event].take(0));
                    Err(PersistedError::Storage(e))
                },
            },
            MaybeFatalTransition::Transient(error) => Err(
                PersistedError::Api(ApiError::Transient(error)),
            ),
            MaybeFatalTransition::Fatal(event, error) => {
                let ghost events = seq![event];
                if let Err(e) = persister.save_event(event) {
                    assert(start =~= start + events.take(0));
                    return Err(PersistedError::Storage(e));
                }
                if let Err(e) = persister.close() {
                    assert(start.push(event) =~= start + events.take(1));
                    return Err(PersistedError::Storage(e));
                }
                Err(PersistedError::Api(ApiError::Fatal(error)))
            },
        }
    }
}

/// A transition that makes progress, makes none, fails for now, or ends the session.
#[derive(Debug, PartialEq, Eq)]
pub enum MaybeFatalTransitionWithNoResults<Event, NextState, CurrentState, Failure> {
    Success(Event, NextState),
    NoResults(CurrentState),
    Transient(Failure),
    Fatal(Event, Failure),
}

impl<Event, NextState, CurrentState, Failure> MaybeFatalTransitionWithNoResults<
    Event,
    NextState,
    CurrentState,
    Failure,
> {
    pub fn success(event: Event, state: NextState) -> (r: Self)
        ensures
            r == MaybeFatalTransitionWithNoResults::<Event, NextState, CurrentState, Failure>::Success(
                event,
                state,
            ),
    {
        MaybeFatalTransitionWithNoResults::Success(event, state)
    }

    pub fn no_results(current: CurrentState) -> (r: Self)
        ensures
            r == MaybeFatalTransitionWithNoResults::<Event, NextState, CurrentState, Failure>::NoResults(
                current,
            ),
    {
        MaybeFatalTransitionWithNoResults::NoResults(current)
    }

    pub fn transient(error: Failure) -> (r: Self)
        ensures
            r == MaybeFatalTransitionWithNoResults::<Event, NextState, CurrentState, Failure>::Transient(
                error,
            ),
    {
        MaybeFatalTransitionWithNoResults::Transient(error)
    }

    pub fn fatal(event: Event, error: Failure) -> (r: Self)
        ensures
            r == MaybeFatalTransitionWithNoResults::<Event, NextState, CurrentState, Failure>::Fatal(
                event,
                error,
            ),
    {
        MaybeFatalTransitionWithNoResults::Fatal(event, error)
    }

    /// Writes what the transition calls for to the log: the event of a success, nothing where
    /// there are no results or for a passing failure, the event of the end and the closing
    /// otherwise.
    pub fn save<P: SessionPersister<SessionEvent = Event>>(self, persister: &mut P) -> (r: Result<
        OptionalTransitionOutcome<NextState, CurrentState>,
        PersistedError<Failure, P::InternalStorageError>,
    >)
        ensures
            match r {
                Err(PersistedError::Storage(_)) => !old(persister).reliable(),
                _ => true,
            },
            final(persister).reliable() == old(persister).reliable(),
            match self {
                MaybeFatalTransitionWithNoResults::Success(event, state) => match r {
                    Ok(outcome) => outcome == OptionalTransitionOutcome::<
                        NextState,
                        CurrentState,
                    >::Progress(state) && appended(*old(persister), *final(persister), seq![event]),
                    Err(failure) => failure matches PersistedError::Storage(e) && partly_appended(
                        *old(persister),
                        *final(persister),
                        seq![event],
                        false,
                        e,
                    ),
                },
                MaybeFatalTransitionWithNoResults::NoResults(current) => r == Ok::<
                    _,
                    PersistedError<Failure, P::InternalStorageError>,
                >(OptionalTransitionOutcome::<NextState, CurrentState>::Stasis(current)) && *final(persister) == *old(persister),
                MaybeFatalTransitionWithNoResults::Transient(error) => r == Err::<
                    OptionalTransitionOutcome<NextState, CurrentState>,
                    _,
                >(
                    PersistedError::<Failure, P::InternalStorageError>::Api(ApiError::Transient(error)),
                ) && *final(persister) == *old(persister),
                MaybeFatalTransitionWithNoResults::Fatal(event, error) => match r {
                    Ok(_) => false,
                    Err(PersistedError::Api(e)) => e == ApiError::Fatal(error)
                        && appended_and_closed(*old(persister), *final(persister), event),
                    Err(PersistedError::Storage(e)) => partly_appended(
                        *old(persister),
                        *final(persister),
                        seq![event],
                        true,
                        e,
                    ),
                },
            },
    {
        let ghost start = persister.events();
        match self {
            MaybeFatalTransitionWithNoResults::Success(event, state) => match persister.save_event(
                event,
            ) {
                Ok(()) => {
                    assert(start.push(event) =~= start + seq![event]);
                    Ok(OptionalTransitionOutcome::Progress(state))
                },
                Err(e) => {
                    assert(start =~= start + seq![event].take(0));
                    Err(PersistedError::Storage(e))
                },
            },
            MaybeFatalTransitionWithNoResults::NoResults(current) => Ok(
                OptionalTransitionOutcome::Stasis(current),
            ),
            MaybeFatalTransitionWithNoResults::Transient(error) => Err(
                PersistedError::Api(ApiError::Transient(error)),
            ),
            MaybeFatalTransitionWithNoResults::Fatal(event, error) => {
                let ghost events = seq![event];
                if let Err(e) = persister.save_event(event) {
                    assert(start =~= start + events.take(0));
                    return Err(PersistedError::Storage(e));
                }
                if let Err(e) = persister.close() {
                    assert(start.push(event) =~= start + events.take(1));
                    return Err(PersistedError::Storage(e));
                }
                Err(PersistedError::Api(ApiError::Fatal(error)))
            },
        }
    }
}

/// Why an event log cannot be replayed.
#[derive(Debug, PartialEq, Eq)]
pub enum ReplayError<Session, Event, StorageErr> {
    /// The log is empty.
    NoEvents,
    /// The event cannot follow the state, or cannot start a session where there is none.
    InvalidEvent(Event, Option<Session>),
    /// The log could not be read, or closed after a failure: what went wrong with it.
    PersistenceFailure(StorageErr),
}

impl<Session, Event, StorageErr> ReplayError<Session, Event, StorageErr> {
    /// Whether the log is empty.
    pub fn is_no_events(&self) -> (r: bool)
        ensures
            r == (self is NoEvents),
    {
        match self {
            ReplayError::NoEvents => true,
            _ => false,
        }
    }

    /// The message shown for this error.
    pub open spec fn spec_message(self) -> Seq<char> {
        match self {
            ReplayError::NoEvents => "no events in the session log"@,
            ReplayError::InvalidEvent(_, Some(_)) => "event cannot follow the session state"@,
            ReplayError::InvalidEvent(_, None) => "event cannot start a session"@,
            ReplayError::PersistenceFailure(_) => "persistence failure"@,
        }
    }

    /// The message shown for this error.
    pub fn message(&self) -> (r: String)
        ensures
            r@ == self.spec_message(),
    {
        match self {
            ReplayError::NoEvents => "no events in the session log".to_owned(),
            ReplayError::InvalidEvent(_, Some(_)) =>
                "event cannot follow the session state".to_owned(),
            ReplayError::InvalidEvent(_, None) => "event cannot start a session".to_owned(),
            ReplayError::PersistenceFailure(_) => "persistence failure".to_owned(),
        }
    }
}

/// Appending events to a log leaves what was there, puts the events behind it in order, and does not
/// close the log; where the log is closed with its last event, only that event is added.
pub proof fn law_log_only_grows<P: SessionPersister>(
    before: P,
    after: P,
    events: Seq<P::SessionEvent>,
    last: P::SessionEvent,
)
    ensures
        appended(before, after, events) ==> {
            &&& after.events().len() == before.events().len() + events.len()
            &&& forall|i: int|
                0 <= i < before.events().len() ==> #[trigger] after.events()[i]
                    == before.events()[i]
            &&& forall|i: int|
                0 <= i < events.len() ==> after.events()[before.events().len() + i]
                    == #[trigger] events[i]
            &&& after.closed() == before.closed()
        },
        appended_and_closed(before, after, last) ==> {
            &&& after.events().len() == before.events().len() + 1
            &&& forall|i: int|
                0 <= i < before.events().len() ==> #[trigger] after.events()[i]
                    == before.events()[i]
            &&& after.events().last() == last
            &&& after.closed()
        },
{
}

/// A failed attempt to append events leaves the log open or closed as it was, with what was there and
/// the events before the failure behind it; all of them are there only where closing was what failed.
pub proof fn law_failed_append_keeps_the_log<P: SessionPersister>(
    before: P,
    after: P,
    events: Seq<P::SessionEvent>,
    closing: bool,
    e: P::InternalStorageError,
)
    requires
        partly_appended(before, after, events, closing, e),
    ensures
        !before.reliable(),
        after.closed() == before.closed(),
        before.events().len() <= after.events().len() <= before.events().len() + events.len(),
        forall|i: int|
            0 <= i < before.events().len() ==> #[trigger] after.events()[i] == before.events()[i],
        forall|i: int|
            before.events().len() <= i < after.events().len() ==> #[trigger] after.events()[i]
                == events[i - before.events().len()],
        after.events().len() < before.events().len() + events.len() ==> P::failed(
            LogOperation::Save,
            e,
        ),
        after.events().len() == before.events().len() + events.len() ==> closing && P::failed(
            LogOperation::Close,
            e,
        ),
{
    let n = choose|n: int|
        {
            &&& 0 <= n <= events.len()
            &&& after.events() == before.events() + #[trigger] events.take(n)
            &&& if n < events.len() {
                P::failed(LogOperation::Save, e)
            } else {
                closing && P::failed(LogOperation::Close, e)
            }
        };
    assert(after.events() == before.events() + events.take(n));
}

} // verus!
