//! Replay of the event log that one role keeps for itself.
use vstd::prelude::*;

use crate::persist::{LogEvent, LogOperation, ReplayError, SessionPersister};

verus! {

/// A session of one role, rebuilt from its events.
pub trait RoleSession: View + Sized {
    type Event: LogEvent;

    /// The session that an event starts, if it starts one.
    spec fn starts(event: Self::Event) -> Option<Self::V>;

    /// The session after one more event, if the event can follow.
    spec fn follows(session: Self::V, event: Self::Event) -> Option<Self::V>;

    /// Whether an event can be met in this state at all.
    spec fn meets(session: Self::V, event: Self::Event) -> bool;

    /// The session that an event starts.
    fn from_first_event<F>(event: Self::Event) -> (r: Result<Self, ReplayError<Self, Self::Event, F>>)
        ensures
            match Self::starts(event) {
                Some(session) => r matches Ok(s) && s@ == session,
                None => r matches Err(ReplayError::InvalidEvent(e, None)) && e == event,
            },
    ;

    /// Whether an event can be met in this state at all.
    fn meets_event(&self, event: &Self::Event) -> (r: bool)
        ensures
            r == Self::meets(self@, *event),
    ;

    /// The session after one more event.
    fn process_event<F>(self, event: Self::Event) -> (r: Result<
        Self,
        ReplayError<Self, Self::Event, F>,
    >)
        requires
            Self::meets(self@, event),
        ensures
            match Self::follows(self@, event) {
                Some(session) => r matches Ok(s) && s@ == session,
                None => r matches Err(ReplayError::InvalidEvent(e, Some(s))) && e == event && s@
                    == self@,
            },
    ;
}

/// What replaying the log of a role comes to.
pub enum RoleReplayed<Model, Event> {
    NoEvents,
    /// The first event that cannot follow, and the session before it.
    Invalid(Event, Option<Model>),
    Session(Model),
}

/// What replaying the log of a role comes to.
pub open spec fn role_replayed<S: RoleSession>(events: Seq<S::Event>) -> RoleReplayed<
    S::V,
    S::Event,
>
    decreases events.len(),
{
    if events.len() == 0 {
        RoleReplayed::NoEvents
    } else if events.len() == 1 {
        match S::starts(events[0]) {
            Some(session) => RoleReplayed::Session(session),
            None => RoleReplayed::Invalid(events[0], None),
        }
    } else {
        match role_replayed::<S>(events.drop_last()) {
            RoleReplayed::Session(session) => match S::follows(session, events.last()) {
                Some(next) => RoleReplayed::Session(next),
                None => RoleReplayed::Invalid(events.last(), Some(session)),
            },
            failure => failure,
        }
    }
}

/// Whether every event of a log can be met in the state before it.
pub open spec fn role_replayable<S: RoleSession>(events: Seq<S::Event>) -> bool
    decreases events.len(),
{
    if events.len() <= 1 {
        true
    } else {
        &&& role_replayable::<S>(events.drop_last())
        &&& role_replayed::<S>(events.drop_last()) matches RoleReplayed::Session(session)
            ==> S::meets(session, events.last())
    }
}

/// Whether a result of replaying is the one that is due.
pub open spec fn role_reports<S: RoleSession, F>(
    r: Result<S, ReplayError<S, S::Event, F>>,
    due: RoleReplayed<S::V, S::Event>,
) -> bool {
    match due {
        RoleReplayed::NoEvents => r matches Err(ReplayError::NoEvents),
        RoleReplayed::Invalid(event, before) => r matches Err(ReplayError::InvalidEvent(e, s))
            && e == event && (match s {
            Some(session) => before == Some(session@),
            None => before is None,
        }),
        RoleReplayed::Session(m) => r matches Ok(session) && session@ == m,
    }
}

/// A log that starts with an event that starts nothing.
proof fn lemma_first_event_fails<S: RoleSession>(events: Seq<S::Event>)
    requires
        events.len() > 0,
        S::starts(events[0]) is None,
    ensures
        role_replayed::<S>(events) == RoleReplayed::<S::V, S::Event>::Invalid(events[0], None),
    decreases events.len(),
{
    if events.len() > 1 {
        lemma_first_event_fails::<S>(events.drop_last());
    }
}

/// A failure in the front of a log is the failure of the log.
proof fn lemma_failure_stays<S: RoleSession>(events: Seq<S::Event>, n: int)
    requires
        1 <= n <= events.len(),
        !(role_replayed::<S>(events.take(n)) is Session),
    ensures
        role_replayed::<S>(events) == role_replayed::<S>(events.take(n)),
    decreases events.len(),
{
    if n == events.len() {
        assert(events.take(n) =~= events);
    } else {
        assert(events.drop_last().take(n) =~= events.take(n));
        lemma_failure_stays::<S>(events.drop_last(), n);
    }
}

/// The front of a replayable log is replayable.
proof fn lemma_replayable_front<S: RoleSession>(events: Seq<S::Event>, n: int)
    requires
        0 <= n <= events.len(),
        role_replayable::<S>(events),
    ensures
        role_replayable::<S>(events.take(n)),
    decreases events.len(),
{
    if n == events.len() {
        assert(events.take(n) =~= events);
    } else if events.len() > 1 {
        assert(events.drop_last().take(n) =~= events.take(n));
        lemma_replayable_front::<S>(events.drop_last(), n);
    }
}

/// Replays some events, oldest first.
pub fn replay_role<S: RoleSession, F>(events: &Vec<S::Event>) -> (r: Result<
    S,
    ReplayError<S, S::Event, F>,
>)
    requires
        role_replayable::<S>(events@),
    ensures
        role_reports::<S, _>(r, role_replayed::<S>(events@)),
{
    if events.len() == 0 {
        return Err(ReplayError::NoEvents);
    }
    let n: usize = events.len();
    let mut session = match S::from_first_event::<F>(events[0].copy_event()) {
        Ok(session) => session,
        Err(e) => {
            proof {
                lemma_first_event_fails::<S>(events@);
            }
            return Err(e);
        },
    };
    let mut i: usize = 1;
    assert(events@.take(1)[0] == events@[0]);
    while i < n
        invariant
            1 <= i <= n,
            n == events@.len(),
            role_replayable::<S>(events@),
            role_replayed::<S>(events@.take(i as int)) == RoleReplayed::<S::V, S::Event>::Session(
                session@,
            ),
        decreases n - i,
    {
        proof {
            lemma_replayable_front::<S>(events@, i + 1);
            assert(events@.take(i + 1).drop_last() =~= events@.take(i as int));
            assert(events@.take(i + 1).last() == events@[i as int]);
        }
        session = match session.process_event::<F>(events[i].copy_event()) {
            Ok(session) => session,
            Err(e) => {
                proof {
                    lemma_failure_stays::<S>(events@, i + 1);
                }
                return Err(e);
            },
        };
        i += 1;
    }
    assert(events@.take(i as int) =~= events@);
    Ok(session)
}

/// Whatever follows an event that cannot follow is never met.
proof fn lemma_invalid_is_replayable<S: RoleSession>(events: Seq<S::Event>, n: int)
    requires
        1 <= n <= events.len(),
        role_replayable::<S>(events.take(n)),
        !(role_replayed::<S>(events.take(n)) is Session),
    ensures
        role_replayable::<S>(events),
    decreases events.len(),
{
    if n == events.len() {
        assert(events.take(n) =~= events);
    } else {
        assert(events.drop_last().take(n) =~= events.take(n));
        lemma_invalid_is_replayable::<S>(events.drop_last(), n);
        lemma_failure_stays::<S>(events.drop_last(), n);
    }
}

/// Whether every event of a log can be met in the state before it.
pub fn is_role_replayable<S: RoleSession>(events: &Vec<S::Event>) -> (r: bool)
    ensures
        r == role_replayable::<S>(events@),
{
    let n: usize = events.len();
    if n <= 1 {
        return true;
    }
    let mut session = match S::from_first_event::<()>(events[0].copy_event()) {
        Ok(session) => session,
        Err(_) => {
            proof {
                lemma_invalid_is_replayable::<S>(events@, 1);
            }
            return true;
        },
    };
    let mut i: usize = 1;
    assert(events@.take(1)[0] == events@[0]);
    while i < n
        invariant
            1 <= i <= n,
            n == events@.len(),
            role_replayable::<S>(events@.take(i as int)),
            role_replayed::<S>(events@.take(i as int)) == RoleReplayed::<S::V, S::Event>::Session(
                session@,
            ),
        decreases n - i,
    {
        proof {
            assert(events@.take(i + 1).drop_last() =~= events@.take(i as int));
            assert(events@.take(i + 1).last() == events@[i as int]);
        }
        if !session.meets_event(&events[i]) {
            proof {
                assert(!role_replayable::<S>(events@.take(i + 1)));
                if role_replayable::<S>(events@) {
                    lemma_replayable_front::<S>(events@, i + 1);
                }
            }
            return false;
        }
        session = match session.process_event::<()>(events[i].copy_event()) {
            Ok(session) => session,
            Err(_) => {
                proof {
                    lemma_invalid_is_replayable::<S>(events@, i + 1);
                }
                return true;
            },
        };
        i += 1;
    }
    assert(events@.take(i as int) =~= events@);
    true
}

/// Whether the error is one that stops a replay: that of reading the log, or that of closing one
/// that cannot be replayed.
pub open spec fn replay_stopped<
    S: RoleSession,
    P: SessionPersister<SessionEvent = S::Event>,
>(events: Seq<S::Event>, e: P::InternalStorageError) -> bool {
    ||| P::failed(LogOperation::Load, e)
    ||| P::failed(LogOperation::Close, e) && !(role_replayed::<S>(events) is Session)
}

/// Replays the log of a role: the session in its current state, and the events. A log that cannot
/// be replayed is closed, unless it could not even be read.
pub fn replay_role_log<S: RoleSession, P: SessionPersister<SessionEvent = S::Event>>(
    persister: &mut P,
) -> (r: Result<(S, Vec<S::Event>), ReplayError<S, S::Event, P::InternalStorageError>>)
    requires
        role_replayable::<S>(old(persister).events()),
    ensures
        final(persister).events() == old(persister).events(),
        final(persister).reliable() == old(persister).reliable(),
        match r {
            Ok((session, events)) => {
                &&& role_replayed::<S>(old(persister).events()) == RoleReplayed::<
                    S::V,
                    S::Event,
                >::Session(session@)
                &&& events@ == old(persister).events()
                &&& *final(persister) == *old(persister)
            },
            Err(ReplayError::PersistenceFailure(e)) => {
                &&& !old(persister).reliable()
                &&& final(persister).closed() == old(persister).closed()
                &&& replay_stopped::<S, P>(old(persister).events(), e)
            },
            Err(e) => role_reports::<S, _>(Err(e), role_replayed::<S>(old(persister).events()))
                && final(persister).closed(),
        },
{
    let events = match persister.load() {
        Ok(events) => events,
        Err(e) => return Err(ReplayError::PersistenceFailure(e)),
    };
    match replay_role::<S, P::InternalStorageError>(&events) {
        Ok(session) => Ok((session, events)),
        Err(e) => {
            if let Err(ce) = persister.close() {
                return Err(ReplayError::PersistenceFailure(ce));
            }
            Err(e)
        },
    }
}

/// A log without events says nothing; the first event starts a session or is refused; every further one
/// goes on from the session that the events before it lead to, or is refused with that session.
pub proof fn law_role_log_is_replayed<S: RoleSession>(
    events: Seq<S::Event>,
    event: S::Event,
    more: Seq<S::Event>,
)
    ensures
        role_replayed::<S>(Seq::empty()) is NoEvents,
        role_replayed::<S>(seq![event]) == (match S::starts(event) {
            Some(session) => RoleReplayed::<S::V, S::Event>::Session(session),
            None => RoleReplayed::Invalid(event, None),
        }),
        role_replayed::<S>(events) matches RoleReplayed::Session(session) ==> role_replayed::<S>(
            events.push(event),
        ) == (match S::follows(session, event) {
            Some(next) => RoleReplayed::<S::V, S::Event>::Session(next),
            None => RoleReplayed::Invalid(event, Some(session)),
        }),
        role_replayed::<S>(events) is Invalid ==> role_replayed::<S>(events + more)
            == role_replayed::<S>(events),
{
    assert(events.push(event).drop_last() =~= events);
    if role_replayed::<S>(events) is Invalid {
        assert((events + more).take(events.len() as int) =~= events);
        lemma_failure_stays::<S>(events + more, events.len() as int);
    }
}

/// A log can be replayed without meeting an event that cannot be met exactly where every event can be
/// met in the state that the events before it lead to.
pub proof fn law_role_replayable_event_by_event<S: RoleSession>(events: Seq<S::Event>)
    ensures
        role_replayable::<S>(events) <==> forall|k: int|
            1 <= k < events.len() ==> (role_replayed::<S>(#[trigger] events.take(k)) matches
                RoleReplayed::Session(session) ==> S::meets(session, events[k])),
    decreases events.len(),
{
    if events.len() > 1 {
        let front = events.drop_last();
        let n = events.len() - 1;
        law_role_replayable_event_by_event::<S>(front);
        assert(events.take(n) =~= front);
        if role_replayable::<S>(events) {
            assert forall|k: int| 1 <= k < events.len() implies (role_replayed::<S>(
                #[trigger] events.take(k),
            ) matches RoleReplayed::Session(session) ==> S::meets(session, events[k])) by {
                if k < n {
                    assert(front.take(k) =~= events.take(k));
                    assert(front[k] == events[k]);
                }
            }
        } else if role_replayable::<S>(front) {
            assert(!(role_replayed::<S>(events.take(n)) matches RoleReplayed::Session(session)
                ==> S::meets(session, events[n])));
        } else {
            let k = choose|k: int|
                1 <= k < front.len() && !(role_replayed::<S>(#[trigger] front.take(k)) matches
                    RoleReplayed::Session(session) ==> S::meets(session, front[k]));
            assert(front.take(k) =~= events.take(k));
            assert(front[k] == events[k]);
        }
    }
}

/// A replay gives the session that is due, or says what cannot follow and what it would have followed.
pub proof fn law_role_replay_is_reported<S: RoleSession, F>(
    r: Result<S, ReplayError<S, S::Event, F>>,
    due: RoleReplayed<S::V, S::Event>,
)
    requires
        role_reports(r, due),
    ensures
        r is Ok <==> due is Session,
        r matches Ok(session) ==> due == RoleReplayed::<S::V, S::Event>::Session(session@),
        r matches Err(ReplayError::InvalidEvent(event, before)) ==> due == RoleReplayed::<
            S::V,
            S::Event,
        >::Invalid(
            event,
            match before {
                Some(session) => Some(session@),
                None => None,
            },
        ),
        r matches Err(e) ==> e is NoEvents || e is InvalidEvent,
        r matches Err(e) && e is NoEvents ==> due is NoEvents,
{
}

} // verus!
