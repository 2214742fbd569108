//! Multiparty session registry: one [`MultipartySessionRegistry`] per wallet.
//!
//! Each role keeps its own event log(s) on a [`SessionPersister`]. Wallets register the logs they
//! own and save transitions to them. Closing awaiting logs and opening successor logs is persisted
//! through [`MultipartyGraduationTransition::save`] and
//! [`MultipartySessionRegistry::new_session`].
use vstd::prelude::*;

use crate::multiparty::participant::awaiting::{
    AwaitingParticipantContext, ParticipantAwaitingSessionParameters,
};
use crate::multiparty::participant::error::ParticipantSessionError;
use crate::multiparty::participant::with_parameters::{
    HasSessionParameters, Participant, ParticipantContext,
};
use crate::multiparty::session::{
    MultipartySession, MultipartySessionEvent, MultipartySessionOutcome,
};
use crate::multiparty::session_parameters::SessionParameters;
use crate::persist::{
    appended, appended_and_closed, partly_appended, ApiError, InMemoryPersister, LogOperation,
    MaybeFatalTransitionWithNoResults, NextStateTransition, OptionalTransitionOutcome,
    PersistedError, ReplayError, SessionPersister,
};
use crate::text::{concat, ends_with, lemma_ends_with};

verus! {

/// What a transition calls for to be written to the log.
pub enum EventfulPersistActions<Event> {
    NoOp,
    Save(Vec<Event>),
    SaveAndClose(Event),
}

impl<Event> EventfulPersistActions<Event> {
    /// Writes what is called for to the log.
    pub fn execute<P: SessionPersister<SessionEvent = Event>>(self, persister: &mut P) -> (r: Result<
        (),
        P::InternalStorageError,
    >)
        ensures
            final(persister).reliable() == old(persister).reliable(),
            old(persister).reliable() ==> r is Ok,
            match self {
                EventfulPersistActions::NoOp => r is Ok && *final(persister) == *old(persister),
                EventfulPersistActions::Save(events) => match r {
                    Ok(()) => appended(*old(persister), *final(persister), events@),
                    Err(e) => partly_appended(*old(persister), *final(persister), events@, false, e),
                },
                EventfulPersistActions::SaveAndClose(event) => match r {
                    Ok(()) => appended_and_closed(*old(persister), *final(persister), event),
                    Err(e) => partly_appended(
                        *old(persister),
                        *final(persister),
                        seq![event],
                        true,
                        e,
                    ),
                },
            },
    {
        let ghost start = persister.events();
        match self {
            EventfulPersistActions::NoOp => Ok(()),
            EventfulPersistActions::Save(events) => save_all(events, persister),
            EventfulPersistActions::SaveAndClose(event) => {
                let ghost events = seq![event];
                if let Err(e) = persister.save_event(event) {
                    assert(start =~= start + events.take(0));
                    return Err(e);
                }
                if let Err(e) = persister.close() {
                    assert(start.push(event) =~= start + events.take(1));
                    return Err(e);
                }
                Ok(())
            },
        }
    }
}

/// Writes some events to the log, in order, until one cannot be written.
fn save_all<Event, P: SessionPersister<SessionEvent = Event>>(
    events: Vec<Event>,
    persister: &mut P,
) -> (r: Result<(), P::InternalStorageError>)
    ensures
        final(persister).reliable() == old(persister).reliable(),
        old(persister).reliable() ==> r is Ok,
        r is Ok ==> appended(*old(persister), *final(persister), events@),
        r matches Err(e) ==> partly_appended(*old(persister), *final(persister), events@, false, e),
{
    let ghost start = persister.events();
    let ghost all = events@;
    let ghost mut done: int = 0;
    proof {
        assert(start =~= start + all.take(0));
    }
    for event in it: events
        invariant
            it.seq() == all,
            done == it.index(),
            0 <= done <= all.len(),
            persister.events() == start + all.take(done),
            persister.closed() == old(persister).closed(),
            persister.reliable() == old(persister).reliable(),
            start == old(persister).events(),
    {
        if let Err(e) = persister.save_event(event) {
            return Err(e);
        }
        proof {
            assert((start + all.take(done)).push(all[done]) =~= start + all.take(done + 1));
            done = done + 1;
        }
    }
    assert(all.take(all.len() as int) =~= all);
    Ok(())
}

/// The events of a successful transition and its outcome.
#[derive(Debug, PartialEq, Eq)]
pub struct EventfulSuccess<Event, Outcome> {
    pub events: Vec<Event>,
    pub outcome: Outcome,
}

/// A failed transition.
#[derive(Debug, PartialEq, Eq)]
pub enum EventfulError<Event, Failure> {
    Transient(Failure),
    Fatal(Event, Failure),
}

/// Saves one or more events, then returns a domain-specific transition outcome.
#[derive(Debug, PartialEq, Eq)]
pub struct EventfulTransition<Event, Outcome, Failure>(
    pub Result<EventfulSuccess<Event, Outcome>, EventfulError<Event, Failure>>,
);

impl<Event, Outcome, Failure> EventfulTransition<Event, Outcome, Failure> {
    pub fn success(events: Vec<Event>, outcome: Outcome) -> (r: Self)
        ensures
            r.0 == Ok::<_, EventfulError<Event, Failure>>(EventfulSuccess { events, outcome }),
    {
        Self(Ok(EventfulSuccess { events, outcome }))
    }

    pub fn transient(error: Failure) -> (r: Self)
        ensures
            r.0 == Err::<EventfulSuccess<Event, Outcome>, _>(
                EventfulError::<Event, Failure>::Transient(error),
            ),
    {
        Self(Err(EventfulError::Transient(error)))
    }

    pub fn fatal(event: Event, error: Failure) -> (r: Self)
        ensures
            r.0 == Err::<EventfulSuccess<Event, Outcome>, _>(EventfulError::Fatal(event, error)),
    {
        Self(Err(EventfulError::Fatal(event, error)))
    }

    /// What is to be written to the log, and what saving then gives.
    pub fn deconstruct(self) -> (r: (
        EventfulPersistActions<Event>,
        Result<Outcome, ApiError<Failure>>,
    ))
        ensures
            match self.0 {
                Ok(done) => r == (
                    EventfulPersistActions::Save(done.events),
                    Ok::<_, ApiError<Failure>>(done.outcome),
                ),
                Err(EventfulError::Transient(error)) => r == (
                    EventfulPersistActions::<Event>::NoOp,
                    Err::<Outcome, _>(ApiError::Transient(error)),
                ),
                Err(EventfulError::Fatal(event, error)) => r == (
                    EventfulPersistActions::SaveAndClose(event),
                    Err::<Outcome, _>(ApiError::Fatal(error)),
                ),
            },
    {
        match self.0 {
            Ok(EventfulSuccess { events, outcome }) => (
                EventfulPersistActions::Save(events),
                Ok(outcome),
            ),
            Err(EventfulError::Transient(error)) => (
                EventfulPersistActions::NoOp,
                Err(ApiError::Transient(error)),
            ),
            Err(EventfulError::Fatal(event, error)) => (
                EventfulPersistActions::SaveAndClose(event),
                Err(ApiError::Fatal(error)),
            ),
        }
    }

    /// Writes what the transition calls for to the log: its events for a success, nothing for a
    /// passing failure, the event of the end and the closing otherwise.
    pub fn save<P: SessionPersister<SessionEvent = Event>>(self, persister: &mut P) -> (r: Result<
        Outcome,
        PersistedError<Failure, P::InternalStorageError>,
    >)
        ensures
            match r {
                Err(PersistedError::Storage(_)) => !old(persister).reliable(),
                _ => true,
            },
            final(persister).reliable() == old(persister).reliable(),
            match self.0 {
                Ok(done) => match r {
                    Ok(outcome) => outcome == done.outcome && appended(
                        *old(persister),
                        *final(persister),
                        done.events@,
                    ),
                    Err(failure) => failure matches PersistedError::Storage(e) && partly_appended(
                        *old(persister),
                        *final(persister),
                        done.events@,
                        false,
                        e,
                    ),
                },
                Err(EventfulError::Transient(error)) => {
                    &&& r == Err::<Outcome, _>(
                        PersistedError::<Failure, P::InternalStorageError>::Api(
                            ApiError::Transient(error),
                        ),
                    )
                    &&& *final(persister) == *old(persister)
                },
                Err(EventfulError::Fatal(event, error)) => match r {
                    Ok(_) => false,
                    Err(PersistedError::Api(e)) => e == ApiError::Fatal(error)
                        && appended_and_closed(*old(persister), *final(persister), event),
                    Err(PersistedError::Storage(e)) => partly_appended(
                        *old(persister),
                        *final(persister),
                        seq![event],
                        true,
                        e,
                    ),
                },
            },
    {
        let (actions, outcome) = self.deconstruct();
        if let Err(e) = actions.execute(persister) {
            return Err(PersistedError::Storage(e));
        }
        match outcome {
            Ok(outcome) => Ok(outcome),
            Err(e) => Err(PersistedError::Api(e)),
        }
    }
}

/// The handles of the logs among the first `n` that are not closed.
pub open spec fn open_handles<P: SessionPersister>(persisters: Seq<P>, n: nat) -> Seq<usize>
    decreases n,
{
    if n == 0 {
        Seq::empty()
    } else {
        let before = open_handles(persisters, (n - 1) as nat);
        if persisters[n - 1].closed() {
            before
        } else {
            before.push((n - 1) as usize)
        }
    }
}

/// Index of many multiparty session persisters. A persister is known by its handle, which is the
/// number of persisters that were registered before it.
pub trait MultipartySessionRegistry: Sized {
    /// Registry-level errors (not per-log storage errors).
    type Error;

    /// Concrete persister type used by the registry.
    type Persister: SessionPersister<SessionEvent = MultipartySessionEvent>;

    /// The registered persisters.
    spec fn persisters(&self) -> Seq<Self::Persister>;

    /// Whether neither the registry nor a log in it ever fails.
    spec fn reliable(&self) -> bool;

    /// A registry that never fails holds logs that never fail.
    proof fn lemma_reliable(&self)
        requires
            self.reliable(),
        ensures
            forall|i: int|
                0 <= i < self.persisters().len() ==> (#[trigger] self.persisters()[i]).reliable(),
    ;

    /// Handles for session logs that are not closed, oldest first.
    fn list_open(&self) -> (r: Result<Vec<usize>, Self::Error>)
        ensures
            self.reliable() ==> r is Ok,
            r matches Ok(handles) ==> {
                &&& self.persisters().len() <= usize::MAX
                &&& handles@ == open_handles(self.persisters(), self.persisters().len())
            },
    ;

    /// Create a new empty session log and return its handle.
    fn new_session(&mut self) -> (r: Result<usize, Self::Error>)
        ensures
            final(self).reliable() == old(self).reliable(),
            old(self).reliable() ==> r is Ok,
            match r {
                Ok(handle) => {
                    &&& handle == old(self).persisters().len()
                    &&& final(self).persisters().len() == handle + 1
                    &&& final(self).persisters().drop_last() == old(self).persisters()
                    &&& final(self).persisters().last().events() == Seq::<
                        MultipartySessionEvent,
                    >::empty()
                    &&& !final(self).persisters().last().closed()
                },
                Err(_) => final(self).persisters() == old(self).persisters(),
            },
    ;

    /// The log with the given handle.
    fn persister(&self, handle: usize) -> (r: &Self::Persister)
        requires
            handle < self.persisters().len(),
        ensures
            *r == self.persisters()[handle as int],
    ;

    /// The log with the given handle, to write to.
    fn persister_mut(&mut self, handle: usize) -> (p: &mut Self::Persister)
        requires
            handle < old(self).persisters().len(),
        ensures
            *p == old(self).persisters()[handle as int],
            final(self).persisters() == old(self).persisters().update(handle as int, *final(p)),
            old(self).reliable() && (*final(p)).reliable() ==> final(self).reliable(),
    ;
}

/// Errors from [`InMemoryMultipartyRegistry`]. The in-memory implementation does not fail registry
/// operations, and there is no way to make one.
#[derive(Debug, Clone, Copy, PartialEq, Eq)]
pub struct RegistryError(());

/// In-memory registry for tests and prototyping.
#[derive(Debug, PartialEq, Eq)]
pub struct InMemoryMultipartyRegistry {
    sessions: Vec<InMemoryPersister<MultipartySessionEvent>>,
}

impl InMemoryMultipartyRegistry {
    /// The registered logs.
    pub closed spec fn spec_sessions(self) -> Seq<InMemoryPersister<MultipartySessionEvent>> {
        self.sessions@
    }

    pub fn new() -> (r: Self)
        ensures
            r.spec_sessions() == Seq::<InMemoryPersister<MultipartySessionEvent>>::empty(),
    {
        InMemoryMultipartyRegistry { sessions: Vec::new() }
    }

    /// Register a new open session and return its handle.
    fn create_session(&mut self) -> (handle: usize)
        ensures
            handle == old(self).spec_sessions().len(),
            final(self).spec_sessions().len() == handle + 1,
            final(self).spec_sessions().drop_last() == old(self).spec_sessions(),
            final(self).spec_sessions().last().spec_log() == Seq::<MultipartySessionEvent>::empty(),
            !final(self).spec_sessions().last().spec_is_closed(),
    {
        let handle: usize = self.sessions.len();
        self.sessions.push(InMemoryPersister::new());
        assert(self.sessions@.drop_last() =~= old(self).sessions@);
        handle
    }
}

impl Default for InMemoryMultipartyRegistry {
    fn default() -> (r: Self)
        ensures
            r.spec_sessions() == Seq::<InMemoryPersister<MultipartySessionEvent>>::empty(),
    {
        Self::new()
    }
}

impl MultipartySessionRegistry for InMemoryMultipartyRegistry {
    type Error = RegistryError;

    type Persister = InMemoryPersister<MultipartySessionEvent>;

    open spec fn persisters(&self) -> Seq<InMemoryPersister<MultipartySessionEvent>> {
        self.spec_sessions()
    }

    open spec fn reliable(&self) -> bool {
        true
    }

    proof fn lemma_reliable(&self) {
        assert forall|i: int| 0 <= i < self.persisters().len() implies (
        #[trigger] self.persisters()[i]).reliable() by {
            assert(self.spec_sessions()[i].reliable());
        }
    }

    fn list_open(&self) -> (r: Result<Vec<usize>, RegistryError>) {
        let mut handles: Vec<usize> = Vec::new();
        let mut i: usize = 0;
        while i < self.sessions.len()
            invariant
                i <= self.sessions@.len(),
                handles@ == open_handles(self.sessions@, i as nat),
            decreases self.sessions@.len() - i,
        {
            if !self.sessions[i].is_closed() {
                handles.push(i);
            }
            i += 1;
        }
        Ok(handles)
    }

    fn new_session(&mut self) -> (r: Result<usize, RegistryError>) {
        Ok(self.create_session())
    }

    fn persister(&self, handle: usize) -> (r: &InMemoryPersister<MultipartySessionEvent>) {
        &self.sessions[handle]
    }

    fn persister_mut(&mut self, handle: usize) -> (p: &mut InMemoryPersister<
        MultipartySessionEvent,
    >) {
        &mut self.sessions[handle]
    }
}

/// Errors from [`MultipartyGraduationTransition::save`].
#[derive(Debug, PartialEq, Eq)]
pub enum GraduationError<E, S> {
    CollectRegistry(E),
    CollectReplay(ReplayError<MultipartySession, MultipartySessionEvent, S>),
    IncompleteAwaitingRegistry,
    Registry(E),
    Storage(S),
}

impl<E, S> GraduationError<E, S> {
    /// The message shown for this error, with the message of its cause.
    pub open spec fn spec_message(self, cause: Seq<char>) -> Seq<char> {
        match self {
            GraduationError::CollectRegistry(_) =>
                "collect awaiting sessions: registry error: "@ + cause,
            GraduationError::CollectReplay(_) => "collect awaiting sessions: replay error: "@
                + cause,
            GraduationError::IncompleteAwaitingRegistry =>
                "registry is missing an open awaiting log for a session creator participant"@,
            GraduationError::Registry(_) => "registry error: "@ + cause,
            GraduationError::Storage(_) => "storage error: "@ + cause,
        }
    }

    /// The message shown for this error, with the message of its cause.
    pub fn message(&self, cause: &str) -> (r: String)
        ensures
            r@ == self.spec_message(cause@),
    {
        match self {
            Self::CollectRegistry(_) => concat(
                "collect awaiting sessions: registry error: ",
                cause,
            ),
            Self::CollectReplay(_) => concat("collect awaiting sessions: replay error: ", cause),
            Self::IncompleteAwaitingRegistry =>
                "registry is missing an open awaiting log for a session creator participant".to_owned(),
            Self::Registry(_) => concat("registry error: ", cause),
            Self::Storage(_) => concat("storage error: ", cause),
        }
    }
}

/// How often a handle occurs in a list.
pub open spec fn times(handles: Seq<usize>, i: int) -> nat
    decreases handles.len(),
{
    if handles.len() == 0 {
        0
    } else {
        times(handles.drop_last(), i) + if handles.last() == i {
            1nat
        } else {
            0
        }
    }
}

/// Whether a log is another one after an event was written to it and it was closed, so often.
pub open spec fn ended<P: SessionPersister>(
    before: P,
    after: P,
    event: P::SessionEvent,
    n: nat,
) -> bool {
    &&& after.events() == before.events() + Seq::new(n, |i: int| event)
    &&& n == 0 ==> after == before
    &&& n > 0 ==> after.closed()
}

/// Whether a log is another one after an event was written to it and it was closed, so often, and
/// then one more attempt to do so failed with an error: that of writing, or that of closing after
/// the event was written once more. The log was not closed by it.
pub open spec fn stopped<P: SessionPersister>(
    before: P,
    after: P,
    event: P::SessionEvent,
    n: nat,
    e: P::InternalStorageError,
) -> bool {
    &&& {
        ||| P::failed(LogOperation::Save, e) && after.events() == before.events() + Seq::new(
            n,
            |i: int| event,
        )
        ||| P::failed(LogOperation::Close, e) && after.events() == before.events() + Seq::new(
            n + 1,
            |i: int| event,
        )
    }
    &&& after.closed() == (n > 0 || before.closed())
}

/// Whether ending some logs in turn stopped with an error at position `k` of the list: those before it in the
/// list are ended, those after it are as they were.
pub open spec fn stopped_at<P: SessionPersister>(
    before: Seq<P>,
    after: Seq<P>,
    from: Seq<usize>,
    event: P::SessionEvent,
    k: int,
    e: P::InternalStorageError,
) -> bool {
    &&& 0 <= k < from.len()
    &&& forall|i: int|
        0 <= i < before.len() && i != from[k] ==> #[trigger] ended(
            before[i],
            after[i],
            event,
            times(from.take(k), i),
        )
    &&& stopped(
        before[from[k] as int],
        after[from[k] as int],
        event,
        times(from.take(k), from[k] as int),
        e,
    )
}

/// Whether a graduation stopped with an error of the storage: the new log is there, and either its
/// first event could not be written and the old logs are as they were, or it was written and ending
/// the old logs stopped at one of them.
pub open spec fn graduation_stopped<P: SessionPersister>(
    before: Seq<P>,
    after: Seq<P>,
    first: P::SessionEvent,
    from: Seq<usize>,
    event: P::SessionEvent,
    e: P::InternalStorageError,
) -> bool {
    &&& after.len() == before.len() + 1
    &&& !after.last().closed()
    &&& {
        ||| P::failed(LogOperation::Save, e) && after.last().events().len() == 0
            && after.drop_last() == before
        ||| after.last().events() == seq![first] && exists|k: int| #[trigger]
            stopped_at(before, after, from, event, k, e)
    }
}

/// Open a successor log, then close one or more existing logs.
#[derive(Debug, PartialEq, Eq)]
pub struct MultipartyGraduationTransition<S> {
    from: Vec<usize>,
    close_event: MultipartySessionEvent,
    successor: NextStateTransition<MultipartySessionEvent, S>,
}

impl<S> MultipartyGraduationTransition<S> {
    /// The handles of the logs that end.
    pub closed spec fn spec_from(self) -> Seq<usize> {
        self.from@
    }

    /// The last event of the logs that end.
    pub closed spec fn spec_close_event(self) -> MultipartySessionEvent {
        self.close_event
    }

    /// The first event of the successor log, and the state it leads to.
    pub closed spec fn spec_successor(self) -> NextStateTransition<MultipartySessionEvent, S> {
        self.successor
    }

    pub fn new(
        from: Vec<usize>,
        close_event: MultipartySessionEvent,
        successor: NextStateTransition<MultipartySessionEvent, S>,
    ) -> (r: Self)
        ensures
            r.spec_from() == from@,
            r.spec_close_event() == close_event,
            r.spec_successor() == successor,
    {
        Self { from, close_event, successor }
    }

    /// Opens a new log with the first event of the successor, and only then ends the old logs, one
    /// after the other. The first failure is the end of it.
    pub fn save<R: MultipartySessionRegistry>(self, registry: &mut R) -> (r: Result<
        (usize, S),
        GraduationError<R::Error, <R::Persister as SessionPersister>::InternalStorageError>,
    >)
        requires
            forall|k: int|
                0 <= k < self.spec_from().len() ==> (#[trigger] self.spec_from()[k]) < old(registry).persisters().len(),
        ensures
            old(registry).reliable() ==> final(registry).reliable() && r is Ok,
            match r {
                Ok((handle, state)) => {
                    let before = old(registry).persisters();
                    let after = final(registry).persisters();
                    &&& handle == before.len()
                    &&& state == self.spec_successor().spec_state()
                    &&& after.len() == before.len() + 1
                    &&& after.last().events() == seq![self.spec_successor().spec_event()]
                    &&& !after.last().closed()
                    &&& forall|i: int|
                        0 <= i < before.len() ==> #[trigger] ended(
                            before[i],
                            after[i],
                            self.spec_close_event(),
                            times(self.spec_from(), i),
                        )
                },
                Err(GraduationError::Registry(_)) => !old(registry).reliable()
                    && final(registry).persisters() == old(registry).persisters(),
                Err(GraduationError::Storage(e)) => !old(registry).reliable()
                    && graduation_stopped(
                    old(registry).persisters(),
                    final(registry).persisters(),
                    self.spec_successor().spec_event(),
                    self.spec_from(),
                    self.spec_close_event(),
                    e,
                ),
                Err(_) => false,
            },
    {
        let Self { from, close_event, successor } = self;
        let ghost before = registry.persisters();
        let ghost first = successor.spec_event();
        assert forall|j: int| 0 <= j < from@.len() implies (#[trigger] from@[j]) < before.len() by {
            assert(self.spec_from()[j] < before.len());
        }
        let handle: usize = match registry.new_session() {
            Ok(handle) => handle,
            Err(e) => return Err(GraduationError::Registry(e)),
        };
        proof {
            if registry.reliable() {
                registry.lemma_reliable();
            }
            assert forall|i: int| 0 <= i < before.len() implies registry.persisters()[i]
                == #[trigger] before[i] by {
                assert(registry.persisters().drop_last()[i] == before[i]);
            }
        }
        let state = match successor.save(registry.persister_mut(handle)) {
            Ok(state) => state,
            Err(e) => {
                assert(registry.persisters().drop_last() =~= before);
                return Err(GraduationError::Storage(e));
            },
        };
        let n: usize = from.len();
        let mut k: usize = 0;
        assert forall|i: int| 0 <= i < before.len() implies #[trigger] ended(
            before[i],
            registry.persisters()[i],
            close_event,
            times(from@.take(0), i),
        ) by {
            assert(before[i].events() + Seq::new(0, |j: int| close_event) =~= before[i].events());
        }
        assert(registry.persisters()[handle as int].events() =~= seq![first]);
        while k < n
            invariant
                k <= n,
                n == from@.len(),
                handle == before.len(),
                forall|j: int| 0 <= j < from@.len() ==> (#[trigger] from@[j]) < before.len(),
                old(registry).reliable() ==> registry.reliable(),
                before == old(registry).persisters(),
                registry.persisters().len() == before.len() + 1,
                registry.persisters()[handle as int].events() == seq![first],
                !registry.persisters()[handle as int].closed(),
                forall|i: int|
                    0 <= i < before.len() ==> #[trigger] ended(
                        before[i],
                        registry.persisters()[i],
                        close_event,
                        times(from@.take(k as int), i),
                    ),
                from@ == self.spec_from(),
                close_event == self.spec_close_event(),
                first == self.spec_successor().spec_event(),
            decreases n - k,
        {
            let h: usize = from[k];
            let ghost now = registry.persisters();
            proof {
                if registry.reliable() {
                    registry.lemma_reliable();
                }
                lemma_times(from@, k as int);
                assert(ended(before[h as int], now[h as int], close_event, times(
                    from@.take(k as int),
                    h as int,
                )));
            }
            if let Err(e) = registry.persister_mut(h).save_event(close_event.clone()) {
                proof {
                    lemma_stopped(before, now, registry.persisters(), from@, k as int, close_event, e);
                    assert(graduation_stopped(
                        before,
                        registry.persisters(),
                        first,
                        from@,
                        close_event,
                        e,
                    ));
                }
                return Err(GraduationError::Storage(e));
            }
            let ghost written = registry.persisters();
            proof {
                if registry.reliable() {
                    registry.lemma_reliable();
                }
            }
            if let Err(e) = registry.persister_mut(h).close() {
                proof {
                    lemma_stopped(before, now, registry.persisters(), from@, k as int, close_event, e);
                    assert(graduation_stopped(
                        before,
                        registry.persisters(),
                        first,
                        from@,
                        close_event,
                        e,
                    ));
                }
                return Err(GraduationError::Storage(e));
            }
            proof {
                assert forall|i: int| 0 <= i < before.len() implies #[trigger] ended(
                    before[i],
                    registry.persisters()[i],
                    close_event,
                    times(from@.take(k + 1), i),
                ) by {
                    let m = times(from@.take(k as int), i);
                    assert(ended(before[i], now[i], close_event, m));
                    if i == h {
                        assert(registry.persisters()[i].events() == now[i].events().push(
                            close_event,
                        ));
                        assert(now[i].events().push(close_event) =~= before[i].events() + Seq::new(
                            m + 1,
                            |j: int| close_event,
                        ));
                    }
                }
            }
            k += 1;
        }
        assert(from@.take(k as int) =~= from@);
        Ok((handle, state))
    }
}

/// How often a handle occurs in one more entry of a list.
proof fn lemma_times(handles: Seq<usize>, k: int)
    requires
        0 <= k < handles.len(),
    ensures
        forall|i: int| #[trigger]
            times(handles.take(k + 1), i) == times(handles.take(k), i) + if handles[k] == i {
                1nat
            } else {
                0
            },
{
    assert(handles.take(k + 1).drop_last() =~= handles.take(k));
}

/// What holds when ending the logs stops at the one that is next in the list.
proof fn lemma_stopped<P: SessionPersister>(
    before: Seq<P>,
    now: Seq<P>,
    after: Seq<P>,
    from: Seq<usize>,
    k: int,
    event: P::SessionEvent,
    e: P::InternalStorageError,
)
    requires
        0 <= k < from.len(),
        from[k] < before.len(),
        now.len() == before.len() + 1,
        after.len() == now.len(),
        forall|i: int| 0 <= i < now.len() && i != from[k] ==> #[trigger] after[i] == now[i],
        P::failed(LogOperation::Save, e) && after[from[k] as int].events()
            == now[from[k] as int].events() || P::failed(LogOperation::Close, e)
            && after[from[k] as int].events() == now[from[k] as int].events().push(event),
        after[from[k] as int].closed() == now[from[k] as int].closed(),
        forall|i: int|
            0 <= i < before.len() ==> #[trigger] ended(
                before[i],
                now[i],
                event,
                times(from.take(k), i),
            ),
    ensures
        stopped_at(before, after, from, event, k, e),
{
    assert forall|i: int| 0 <= i < before.len() && i != from[k] implies #[trigger] ended(
        before[i],
        after[i],
        event,
        times(from.take(k), i),
    ) by {
        assert(after[i] == now[i]);
        assert(ended(before[i], now[i], event, times(from.take(k), i)));
    }
    let h = from[k] as int;
    let n = times(from.take(k), h);
    assert(ended(before[h], now[h], event, n));
    assert(now[h].events().push(event) =~= before[h].events() + Seq::new(n + 1, |i: int| event));
}

/// Participant received session parameters; close the awaiting log and continue in a new log.
#[derive(Debug, PartialEq, Eq)]
pub struct ParticipantParametersAdoption {
    pub participant_context: AwaitingParticipantContext,
    pub session_parameters: SessionParameters,
}

impl ParticipantParametersAdoption {
    /// The context in which the participant goes on.
    pub open spec fn spec_context(self) -> ParticipantContext {
        ParticipantContext {
            directory: self.participant_context.directory,
            ohttp_keys: self.participant_context.ohttp_keys,
            session_parameters: self.session_parameters,
        }
    }

    pub fn from_awaiting_participant(
        participant: &ParticipantAwaitingSessionParameters,
        session_parameters: SessionParameters,
    ) -> (r: Self)
        ensures
            r.participant_context == participant.context,
            r.session_parameters == session_parameters,
    {
        Self { participant_context: participant.context.clone(), session_parameters }
    }

    /// Session parameters adopted into the post-adoption log.
    pub fn session_parameters(&self) -> (r: &SessionParameters)
        ensures
            *r == self.session_parameters,
    {
        &self.session_parameters
    }

    /// The last event of the awaiting log.
    pub fn close_event(&self) -> (r: MultipartySessionEvent)
        ensures
            r == MultipartySessionEvent::Closed(
                MultipartySessionOutcome::Graduated(self.session_parameters),
            ),
    {
        MultipartySessionEvent::Closed(
            MultipartySessionOutcome::Graduated(self.session_parameters.clone()),
        )
    }

    /// Ends the log with the given handle and goes on in a new one.
    pub fn graduation_transition(self, from: usize) -> (r: MultipartyGraduationTransition<
        Participant<HasSessionParameters>,
    >)
        ensures
            r.spec_from() == seq![from],
            r.spec_close_event() == MultipartySessionEvent::Closed(
                MultipartySessionOutcome::Graduated(self.session_parameters),
            ),
            r.spec_successor().spec_event() == MultipartySessionEvent::SessionParametersAdopted(
                self.spec_context(),
            ),
            r.spec_successor().spec_state().context == self.spec_context(),
    {
        let close_event = self.close_event();
        let mut handles: Vec<usize> = Vec::new();
        handles.push(from);
        assert(handles@ =~= seq![from]);
        MultipartyGraduationTransition::new(handles, close_event, self.successor_transition())
    }

    /// The first event of the new log, and the state it leads to.
    fn successor_transition(self) -> (r: NextStateTransition<
        MultipartySessionEvent,
        Participant<HasSessionParameters>,
    >)
        ensures
            r.spec_event() == MultipartySessionEvent::SessionParametersAdopted(self.spec_context()),
            r.spec_state().context == self.spec_context(),
    {
        let context = ParticipantContext {
            directory: self.participant_context.directory,
            ohttp_keys: self.participant_context.ohttp_keys,
            session_parameters: self.session_parameters,
        };
        NextStateTransition::success(
            MultipartySessionEvent::SessionParametersAdopted(context.clone()),
            Participant::from_adopted_context(context),
        )
    }
}

/// Outcome of polling for session parameters before persistence.
#[derive(Debug, PartialEq, Eq)]
pub enum SessionParametersPollTransition {
    /// Directory has nothing yet; resume from the returned participant.
    Stasis(ParticipantAwaitingSessionParameters),
    /// Parameters retrieved; persist via [`SessionParametersPollTransition::save`].
    Adoption(ParticipantParametersAdoption),
}

impl SessionParametersPollTransition {
    /// Persist this poll outcome via `registry`.
    ///
    /// Stasis requires no registry mutation. Adoption closes `from` and registers a new log whose
    /// first event is [`MultipartySessionEvent::SessionParametersAdopted`].
    pub fn save<R: MultipartySessionRegistry>(self, registry: &mut R, from: usize) -> (r: Result<
        OptionalTransitionOutcome<usize, ParticipantAwaitingSessionParameters>,
        GraduationError<R::Error, <R::Persister as SessionPersister>::InternalStorageError>,
    >)
        requires
            from < old(registry).persisters().len(),
        ensures
            old(registry).reliable() ==> final(registry).reliable() && r is Ok,
            match self {
                SessionParametersPollTransition::Stasis(participant) => {
                    &&& r matches Ok(outcome) && outcome == OptionalTransitionOutcome::<
                        usize,
                        ParticipantAwaitingSessionParameters,
                    >::Stasis(participant)
                    &&& *final(registry) == *old(registry)
                },
                SessionParametersPollTransition::Adoption(adoption) => {
                    let before = old(registry).persisters();
                    let after = final(registry).persisters();
                    match r {
                        Ok(outcome) => {
                            &&& outcome matches OptionalTransitionOutcome::Progress(handle)
                                && handle == before.len()
                            &&& after.len() == before.len() + 1
                            &&& after.last().events() == seq![
                                MultipartySessionEvent::SessionParametersAdopted(
                                    adoption.spec_context(),
                                ),
                            ]
                            &&& !after.last().closed()
                            &&& after[from as int].events() == before[from as int].events().push(
                                MultipartySessionEvent::Closed(
                                    MultipartySessionOutcome::Graduated(
                                        adoption.session_parameters,
                                    ),
                                ),
                            )
                            &&& after[from as int].closed()
                            &&& forall|i: int|
                                0 <= i < before.len() && i != from ==> #[trigger] after[i]
                                    == before[i]
                        },
                        Err(GraduationError::Registry(_)) => !old(registry).reliable() && after
                            == before,
                        Err(GraduationError::Storage(e)) => {
                            let event = MultipartySessionEvent::Closed(
                                MultipartySessionOutcome::Graduated(adoption.session_parameters),
                            );
                            &&& !old(registry).reliable()
                            &&& after.len() == before.len() + 1
                            &&& !after.last().closed()
                            &&& {
                                ||| after.last().events().len() == 0 && after.drop_last() == before
                                    && R::Persister::failed(LogOperation::Save, e)
                                ||| after.last().events() == seq![
                                    MultipartySessionEvent::SessionParametersAdopted(
                                        adoption.spec_context(),
                                    ),
                                ]
                            }
                            &&& {
                                ||| R::Persister::failed(LogOperation::Save, e)
                                    && after[from as int].events() == before[from as int].events()
                                ||| R::Persister::failed(LogOperation::Close, e)
                                    && after[from as int].events()
                                    == before[from as int].events().push(event)
                            }
                            &&& after[from as int].closed() == before[from as int].closed()
                            &&& forall|i: int|
                                0 <= i < before.len() && i != from ==> #[trigger] after[i]
                                    == before[i]
                        },
                        Err(_) => false,
                    }
                },
            },
    {
        match self {
            SessionParametersPollTransition::Stasis(participant) => Ok(
                OptionalTransitionOutcome::Stasis(participant),
            ),
            SessionParametersPollTransition::Adoption(adoption) => {
                let ghost before = registry.persisters();
                let ghost event = MultipartySessionEvent::Closed(
                    MultipartySessionOutcome::Graduated(adoption.session_parameters),
                );
                let transition = adoption.graduation_transition(from);
                let ghost handles = transition.spec_from();
                proof {
                    reveal_with_fuel(times, 2);
                    assert(handles.drop_last() =~= Seq::<usize>::empty());
                }
                match transition.save(registry) {
                    Ok((new, _)) => {
                        proof {
                            let after = registry.persisters();
                            assert(times(handles, from as int) == 1);
                            assert(ended(
                                before[from as int],
                                after[from as int],
                                event,
                                times(handles, from as int),
                            ));
                            assert(before[from as int].events() + Seq::new(1, |i: int| event)
                                =~= before[from as int].events().push(event));
                            assert forall|i: int|
                                0 <= i < before.len() && i != from implies #[trigger] after[i]
                                == before[i] by {
                                assert(ended(before[i], after[i], event, times(handles, i)));
                            }
                        }
                        Ok(OptionalTransitionOutcome::Progress(new))
                    },
                    Err(e) => {
                        proof {
                            let after = registry.persisters();
                            if e is Storage {
                                let storage = e->Storage_0;
                                if after.last().events().len() == 0 {
                                    assert forall|i: int| 0 <= i < before.len() implies
                                        #[trigger] after[i] == before[i] by {
                                        assert(after.drop_last()[i] == before[i]);
                                    }
                                } else {
                                    let k = choose|k: int|
                                        stopped_at(before, after, handles, event, k, storage);
                                    assert(k == 0);
                                    assert(handles.take(0) =~= Seq::<usize>::empty());
                                    let log = before[from as int].events();
                                    assert(log + Seq::new(0, |i: int| event) =~= log);
                                    assert(log + Seq::new(1, |i: int| event) =~= log.push(event));
                                    assert forall|i: int|
                                        0 <= i < before.len() && i != from implies
                                        #[trigger] after[i] == before[i] by {
                                        assert(ended(
                                            before[i],
                                            after[i],
                                            event,
                                            times(handles.take(k), i),
                                        ));
                                    }
                                }
                            }
                        }
                        Err(e)
                    },
                }
            },
        }
    }
}

/// Fatal or transient failure while polling for session parameters.
#[derive(Debug, PartialEq, Eq)]
pub enum SessionParametersPollFailure {
    Transient(ParticipantSessionError),
    Fatal(
        MaybeFatalTransitionWithNoResults<
            MultipartySessionEvent,
            (),
            ParticipantAwaitingSessionParameters,
            ParticipantSessionError,
        >,
    ),
}

/// The handles that are listed among the first `n` logs are those of the logs that are not closed, each
/// once and in order.
pub proof fn law_open_logs_are_listed<P: SessionPersister>(persisters: Seq<P>, n: nat)
    requires
        n <= persisters.len() <= usize::MAX,
    ensures
        forall|i: int|
            0 <= i < n && !(#[trigger] persisters[i]).closed() ==> open_handles(
                persisters,
                n,
            ).contains(i as usize),
        forall|k: int|
            0 <= k < open_handles(persisters, n).len() ==> (#[trigger] open_handles(
                persisters,
                n,
            )[k]) < n && !persisters[open_handles(persisters, n)[k] as int].closed(),
        forall|k: int, l: int|
            0 <= k < l < open_handles(persisters, n).len() ==> (#[trigger] open_handles(
                persisters,
                n,
            )[k]) < (#[trigger] open_handles(persisters, n)[l]),
    decreases n,
{
    if n > 0 {
        let m = (n - 1) as nat;
        law_open_logs_are_listed(persisters, m);
        let before = open_handles(persisters, m);
        let all = open_handles(persisters, n);
        assert forall|i: int| 0 <= i < n && !(#[trigger] persisters[i]).closed() implies all.contains(
            i as usize,
        ) by {
            if i < m {
                let k = before.index_of(i as usize);
                assert(all[k] == before[k]);
            } else {
                assert(all[all.len() - 1] == i as usize);
            }
        }
        assert forall|k: int| 0 <= k < all.len() implies (#[trigger] all[k]) < n
            && !persisters[all[k] as int].closed() by {
            if k < before.len() {
                assert(all[k] == before[k]);
            }
        }
        assert forall|k: int, l: int| 0 <= k < l < all.len() implies (#[trigger] all[k]) < (
        #[trigger] all[l]) by {
            assert(all[k] == before[k]);
            if l < before.len() {
                assert(all[l] == before[l]);
            }
        }
    }
}

/// A handle occurs in a list where it stands in it, and once where no handle stands there twice.
proof fn lemma_times_of_distinct(handles: Seq<usize>, i: usize)
    requires
        handles.no_duplicates(),
    ensures
        times(handles, i as int) == if handles.contains(i) {
            1nat
        } else {
            0nat
        },
    decreases handles.len(),
{
    if handles.len() > 0 {
        let before = handles.drop_last();
        lemma_times_of_distinct(before, i);
        if handles.contains(i) {
            let k = handles.index_of(i);
            if k < before.len() {
                assert(before[k] == i);
                assert(handles.last() != i);
            } else {
                assert(handles.last() == i);
                if before.contains(i) {
                    let j = before.index_of(i);
                    assert(handles[j] == i && handles[k] == i);
                }
            }
        } else {
            if before.contains(i) {
                let j = before.index_of(i);
                assert(handles[j] == i);
            }
            if handles.last() == i {
                assert(handles[handles.len() - 1] == i);
            }
        }
    }
}

/// Ending the listed logs writes the last event to each of them, once, behind what was there, and closes
/// it; a log that is not listed is as it was.
pub proof fn law_listed_logs_are_ended<P: SessionPersister>(
    before: Seq<P>,
    after: Seq<P>,
    from: Seq<usize>,
    event: P::SessionEvent,
)
    requires
        from.no_duplicates(),
        before.len() <= after.len(),
        before.len() <= usize::MAX,
        forall|i: int|
            0 <= i < before.len() ==> #[trigger] ended(before[i], after[i], event, times(from, i)),
    ensures
        forall|i: int|
            0 <= i < before.len() && from.contains(i as usize) ==> (#[trigger] after[i]).closed()
                && after[i].events() == before[i].events().push(event),
        forall|i: int|
            0 <= i < before.len() && !from.contains(i as usize) ==> #[trigger] after[i]
                == before[i],
{
    assert forall|i: int| 0 <= i < before.len() && from.contains(i as usize) implies (
    #[trigger] after[i]).closed() && after[i].events() == before[i].events().push(event) by {
        lemma_times_of_distinct(from, i as usize);
        assert(ended(before[i], after[i], event, times(from, i)));
        assert(after[i].events() =~= before[i].events().push(event));
    }
    assert forall|i: int| 0 <= i < before.len() && !from.contains(
        i as usize,
    ) implies #[trigger] after[i] == before[i] by {
        lemma_times_of_distinct(from, i as usize);
        assert(ended(before[i], after[i], event, times(from, i)));
    }
}

/// A participant that adopts session parameters goes on with them on the directory, and with the OHTTP
/// keys, on which it awaited them.
pub proof fn law_adoption_keeps_the_directory(adoption: ParticipantParametersAdoption)
    ensures
        adoption.spec_context().directory@ == adoption.participant_context.directory@,
        adoption.spec_context().ohttp_keys == adoption.participant_context.ohttp_keys,
        adoption.spec_context().session_parameters == adoption.session_parameters,
{
}

/// Where a graduation stops with an error of the storage, no log that was not to end has changed; of those
/// that were, none has lost anything or got anything but the last event; and nothing was ended before
/// the new log had its first event.
pub proof fn law_stopped_graduation_loses_nothing<P: SessionPersister>(
    before: Seq<P>,
    after: Seq<P>,
    first: P::SessionEvent,
    from: Seq<usize>,
    event: P::SessionEvent,
    e: P::InternalStorageError,
    i: int,
)
    requires
        graduation_stopped(before, after, first, from, event, e),
        before.len() <= usize::MAX,
        0 <= i < before.len(),
    ensures
        after.len() == before.len() + 1,
        !after.last().closed(),
        after.last().events().len() == 0 ==> after[i] == before[i],
        after.last().events().len() > 0 ==> after.last().events() == seq![first],
        !from.contains(i as usize) ==> after[i] == before[i],
        before[i].events().len() <= after[i].events().len(),
        forall|j: int|
            0 <= j < before[i].events().len() ==> #[trigger] after[i].events()[j]
                == before[i].events()[j],
        forall|j: int|
            before[i].events().len() <= j < after[i].events().len()
                ==> #[trigger] after[i].events()[j] == event,
{
    if after.last().events().len() == 0 {
        assert(after.drop_last()[i] == after[i]);
    } else {
        let k = choose|k: int| #[trigger] stopped_at(before, after, from, event, k, e);
        if i != from[k] {
            assert(ended(before[i], after[i], event, times(from.take(k), i)));
            if !from.contains(i as usize) {
                assert forall|j: int| 0 <= j < from.take(k).len() implies #[trigger] from.take(k)[j]
                    != i by {
                    assert(from[j] == from.take(k)[j]);
                }
                lemma_times_of_absent(from.take(k), i);
            }
        } else {
            assert(from.contains(i as usize));
        }
    }
}

/// A handle that does not stand in a list does not occur in it.
proof fn lemma_times_of_absent(handles: Seq<usize>, i: int)
    requires
        forall|j: int| 0 <= j < handles.len() ==> #[trigger] handles[j] != i,
    ensures
        times(handles, i) == 0,
    decreases handles.len(),
{
    if handles.len() > 0 {
        let before = handles.drop_last();
        assert forall|j: int| 0 <= j < before.len() implies #[trigger] before[j] != i by {
            assert(handles[j] == before[j]);
        }
        lemma_times_of_absent(before, i);
        assert(handles.last() == handles[handles.len() - 1]);
    }
}

/// The message of an error that has a cause ends with the message of the cause.
pub proof fn law_message_ends_with_the_cause<E, S>(e: GraduationError<E, S>, cause: Seq<char>)
    ensures
        match e {
            GraduationError::CollectRegistry(_) => ends_with(e.spec_message(cause), cause),
            GraduationError::CollectReplay(_) => ends_with(e.spec_message(cause), cause),
            GraduationError::Registry(_) => ends_with(e.spec_message(cause), cause),
            GraduationError::Storage(_) => ends_with(e.spec_message(cause), cause),
            _ => true,
        },
{
    match e {
        GraduationError::CollectRegistry(_) => lemma_ends_with(
            "collect awaiting sessions: registry error: "@,
            cause,
        ),
        GraduationError::CollectReplay(_) => lemma_ends_with(
            "collect awaiting sessions: replay error: "@,
            cause,
        ),
        GraduationError::Registry(_) => lemma_ends_with("registry error: "@, cause),
        GraduationError::Storage(_) => lemma_ends_with("storage error: "@, cause),
        _ => {},
    }
}

/// Where ending the logs stops with an error of the storage, it stops at the first log that could not be
/// ended: those listed before it got the last event and are closed, it is no more closed than it was,
/// and those listed behind it are as they were.
pub proof fn law_graduation_stops_at_the_first_failure<P: SessionPersister>(
    before: Seq<P>,
    after: Seq<P>,
    first: P::SessionEvent,
    from: Seq<usize>,
    event: P::SessionEvent,
    e: P::InternalStorageError,
) -> (k: int)
    requires
        graduation_stopped(before, after, first, from, event, e),
        after.last().events().len() > 0,
        before.len() <= usize::MAX,
        from.no_duplicates(),
        forall|j: int| 0 <= j < from.len() ==> #[trigger] from[j] < before.len(),
    ensures
        0 <= k < from.len(),
        forall|j: int|
            0 <= j < k ==> after[#[trigger] from[j] as int].closed()
                && after[from[j] as int].events() == before[from[j] as int].events().push(event),
        forall|j: int|
            k < j < from.len() ==> after[#[trigger] from[j] as int] == before[from[j] as int],
        after[from[k] as int].closed() == before[from[k] as int].closed(),
        after[from[k] as int].events() == before[from[k] as int].events() && P::failed(
            LogOperation::Save,
            e,
        ) || after[from[k] as int].events() == before[from[k] as int].events().push(event)
            && P::failed(LogOperation::Close, e),
{
    let k = choose|k: int| #[trigger] stopped_at(before, after, from, event, k, e);
    let done = from.take(k);
    assert(done.no_duplicates());
    assert forall|j: int| 0 <= j < k implies after[#[trigger] from[j] as int].closed()
        && after[from[j] as int].events() == before[from[j] as int].events().push(event) by {
        let i = from[j];
        assert(done[j] == i);
        lemma_times_of_distinct(done, i);
        assert(ended(before[i as int], after[i as int], event, times(done, i as int)));
        assert(before[i as int].events() + Seq::new(1, |l: int| event)
            =~= before[i as int].events().push(event));
    }
    assert forall|j: int| k < j < from.len() implies after[#[trigger] from[j] as int]
        == before[from[j] as int] by {
        let i = from[j];
        assert forall|l: int| 0 <= l < done.len() implies #[trigger] done[l] != i by {
            assert(done[l] == from[l]);
        }
        lemma_times_of_absent(done, i as int);
        assert(ended(before[i as int], after[i as int], event, times(done, i as int)));
    }
    let h = from[k] as int;
    assert forall|l: int| 0 <= l < done.len() implies #[trigger] done[l] != h by {
        assert(done[l] == from[l]);
    }
    lemma_times_of_absent(done, h);
    let log = before[h].events();
    assert(log + Seq::new(0, |l: int| event) =~= log);
    assert(log + Seq::new(1, |l: int| event) =~= log.push(event));
    k
}

} // verus!
