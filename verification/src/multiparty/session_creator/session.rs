//! The event log that session creators keep for themselves: events, state, replay and history.
use vstd::prelude::*;

use crate::hpke::HpkePublicKey;
use crate::multiparty::role_log::{
    replay_role_log, replay_stopped, role_replayable, role_replayed, role_reports, RoleReplayed, RoleSession,
};
use crate::multiparty::session::SessionModel;
use crate::multiparty::session_creator::distribution::{after_delivery, ParametersDelivery};
use crate::multiparty::session_creator::{
    delivered_to, law_delivery_serves_one_participant, law_distribution_is_complete, undelivered,
    CollectedSessions, CreatorModel, ParametersDistributed, SessionCreator, SessionCreatorContext,
};
use crate::persist::{LogEvent, ReplayError, SessionPersister};

verus! {

/// Events recorded during a multiparty session-creator session.
#[derive(Debug, PartialEq, Eq)]
pub enum SessionCreatorEvent {
    Created(SessionCreatorContext),
    ParametersDeliveredTo(HpkePublicKey),
    Closed(SessionCreatorOutcome),
}

/// Outcome of a closed session-creator session.
#[derive(Debug, Clone, Copy, PartialEq, Eq)]
pub enum SessionCreatorOutcome {
    Failure,
}

/// Inferred status of a session-creator session from its event log.
#[derive(Debug, Clone, Copy, PartialEq, Eq, Structural)]
pub enum SessionCreatorStatus {
    Active,
    Failed,
    CollectingParameters,
    ParametersDistributed,
}

impl Clone for SessionCreatorEvent {
    fn clone(&self) -> (r: Self)
        ensures
            r == *self,
    {
        match self {
            SessionCreatorEvent::Created(context) => SessionCreatorEvent::Created(context.clone()),
            SessionCreatorEvent::ParametersDeliveredTo(key) =>
                SessionCreatorEvent::ParametersDeliveredTo(*key),
            SessionCreatorEvent::Closed(outcome) => SessionCreatorEvent::Closed(*outcome),
        }
    }
}

impl LogEvent for SessionCreatorEvent {
    fn copy_event(&self) -> (r: Self) {
        self.clone()
    }
}

/// Type-erased session-creator session for replay and persistence.
#[derive(Debug, PartialEq, Eq)]
pub enum SessionCreatorSession {
    CollectedSessions(SessionCreator<CollectedSessions>),
    ParametersDistributed(SessionCreator<ParametersDistributed>),
    Closed(SessionCreatorOutcome),
}

/// What is known of a session-creator session.
pub enum SessionCreatorSessionModel {
    CollectedSessions(CreatorModel),
    ParametersDistributed(CreatorModel),
    Closed(SessionCreatorOutcome),
}

impl View for SessionCreatorSession {
    type V = SessionCreatorSessionModel;

    open spec fn view(&self) -> SessionCreatorSessionModel {
        match self {
            SessionCreatorSession::CollectedSessions(s) =>
                SessionCreatorSessionModel::CollectedSessions(s.context@),
            SessionCreatorSession::ParametersDistributed(s) =>
                SessionCreatorSessionModel::ParametersDistributed(s.context@),
            SessionCreatorSession::Closed(outcome) => SessionCreatorSessionModel::Closed(*outcome),
        }
    }
}

/// The session after a delivery: distributed once every participant is served.
pub open spec fn creator_after_delivery(
    context: CreatorModel,
    recipient: HpkePublicKey,
) -> SessionCreatorSessionModel {
    match after_delivery(context, recipient)->Ok_0 {
        SessionModel::SessionCreatorParametersDistributed(next) =>
            SessionCreatorSessionModel::ParametersDistributed(next),
        SessionModel::SessionCreatorCollectedSessions(next) =>
            SessionCreatorSessionModel::CollectedSessions(next),
        _ => SessionCreatorSessionModel::CollectedSessions(context),
    }
}

impl RoleSession for SessionCreatorSession {
    type Event = SessionCreatorEvent;

    open spec fn starts(event: SessionCreatorEvent) -> Option<SessionCreatorSessionModel> {
        match event {
            SessionCreatorEvent::Created(context) => Some(
                SessionCreatorSessionModel::CollectedSessions(context@),
            ),
            _ => None,
        }
    }

    open spec fn follows(
        session: SessionCreatorSessionModel,
        event: SessionCreatorEvent,
    ) -> Option<SessionCreatorSessionModel> {
        match (session, event) {
            (_, SessionCreatorEvent::Closed(outcome)) => Some(
                SessionCreatorSessionModel::Closed(outcome),
            ),
            (
                SessionCreatorSessionModel::CollectedSessions(context),
                SessionCreatorEvent::ParametersDeliveredTo(recipient),
            ) => Some(creator_after_delivery(context, recipient)),
            _ => None,
        }
    }

    /// A delivery is only noted for a participant that it is due to.
    open spec fn meets(session: SessionCreatorSessionModel, event: SessionCreatorEvent) -> bool {
        match (session, event) {
            (
                SessionCreatorSessionModel::CollectedSessions(context),
                SessionCreatorEvent::ParametersDeliveredTo(recipient),
            ) => delivered_to(context.participants, recipient) is Ok,
            _ => true,
        }
    }

    fn from_first_event<F>(event: SessionCreatorEvent) -> (r: Result<
        Self,
        ReplayError<Self, SessionCreatorEvent, F>,
    >) {
        match event {
            SessionCreatorEvent::Created(context) => Ok(SessionCreatorSession::new(context)),
            event => Err(ReplayError::InvalidEvent(event, None)),
        }
    }

    fn meets_event(&self, event: &SessionCreatorEvent) -> (r: bool) {
        match (self, event) {
            (
                SessionCreatorSession::CollectedSessions(state),
                SessionCreatorEvent::ParametersDeliveredTo(recipient),
            ) => state.context.is_due(recipient),
            _ => true,
        }
    }

    fn process_event<F>(self, event: SessionCreatorEvent) -> (r: Result<
        Self,
        ReplayError<Self, SessionCreatorEvent, F>,
    >) {
        match (self, event) {
            (
                SessionCreatorSession::CollectedSessions(state),
                SessionCreatorEvent::ParametersDeliveredTo(recipient),
            ) => match state.parameters_delivered_to(recipient) {
                Ok(ParametersDelivery::Collecting(next)) => Ok(
                    SessionCreatorSession::CollectedSessions(next),
                ),
                Ok(ParametersDelivery::Distributed(next)) => Ok(
                    SessionCreatorSession::ParametersDistributed(next),
                ),
                Err(_) => vstd::pervasive::unreached(),
            },
            (_, SessionCreatorEvent::Closed(outcome)) => Ok(SessionCreatorSession::Closed(outcome)),
            (current_state, event) => Err(ReplayError::InvalidEvent(event, Some(current_state))),
        }
    }
}

impl SessionCreatorSession {
    /// The session of a new session creator.
    pub fn new(context: SessionCreatorContext) -> (r: Self)
        ensures
            r@ == SessionCreatorSessionModel::CollectedSessions(context@),
    {
        SessionCreatorSession::CollectedSessions(
            SessionCreator { state: CollectedSessions {  }, context },
        )
    }
}

/// A collection of events from a session-creator session, from [`replay_event_log`].
#[derive(Debug, PartialEq, Eq)]
pub struct SessionCreatorHistory {
    events: Vec<SessionCreatorEvent>,
}

impl SessionCreatorHistory {
    /// The events.
    pub closed spec fn spec_events(self) -> Seq<SessionCreatorEvent> {
        self.events@
    }

    pub(crate) fn new(events: Vec<SessionCreatorEvent>) -> (r: Self)
        requires
            events@.len() > 0,
        ensures
            r.spec_events() == events@,
    {
        Self { events }
    }
}

/// Replay a session-creator event log to get the creator in its current state and history. A log
/// that cannot be replayed is closed, unless it could not even be read.
pub fn replay_event_log<P: SessionPersister<SessionEvent = SessionCreatorEvent>>(
    persister: &mut P,
) -> (r: Result<
    (SessionCreatorSession, SessionCreatorHistory),
    ReplayError<SessionCreatorSession, SessionCreatorEvent, P::InternalStorageError>,
>)
    requires
        role_replayable::<SessionCreatorSession>(old(persister).events()),
    ensures
        final(persister).events() == old(persister).events(),
        final(persister).reliable() == old(persister).reliable(),
        match r {
            Ok((session, history)) => {
                &&& role_replayed::<SessionCreatorSession>(old(persister).events())
                    == RoleReplayed::<
                    SessionCreatorSessionModel,
                    SessionCreatorEvent,
                >::Session(session@)
                &&& history.spec_events() == old(persister).events()
                &&& *final(persister) == *old(persister)
            },
            Err(ReplayError::PersistenceFailure(e)) => {
                &&& !old(persister).reliable()
                &&& final(persister).closed() == old(persister).closed()
                &&& replay_stopped::<SessionCreatorSession, P>(old(persister).events(), e)
            },
            Err(e) => role_reports::<SessionCreatorSession, _>(
                Err(e),
                role_replayed::<SessionCreatorSession>(old(persister).events()),
            ) && final(persister).closed(),
        },
{
    match replay_role_log::<SessionCreatorSession, P>(persister) {
        Ok((session, events)) => {
            assert(events@.len() > 0) by {
                if events@.len() == 0 {
                    assert(role_replayed::<SessionCreatorSession>(events@) is NoEvents);
                }
            }
            Ok((session, SessionCreatorHistory::new(events)))
        },
        Err(e) => Err(e),
    }
}

/// The session of a session creator starts with its creation and nothing else; goes on with deliveries
/// until every participant is served, and is distributed then; and ends whenever it is closed. A
/// delivery changes the list of participants and nothing else.
pub proof fn law_session_creator_log(
    session: SessionCreatorSessionModel,
    event: SessionCreatorEvent,
)
    ensures
        match event {
            SessionCreatorEvent::Created(context) => SessionCreatorSession::starts(event) == Some(
                SessionCreatorSessionModel::CollectedSessions(context@),
            ) && SessionCreatorSession::follows(session, event) is None,
            SessionCreatorEvent::ParametersDeliveredTo(key) => SessionCreatorSession::starts(event)
                is None && (match SessionCreatorSession::follows(session, event) {
                Some(next) => {
                    &&& session matches SessionCreatorSessionModel::CollectedSessions(before)
                    &&& delivered_to(before.participants, key) matches Ok(participants) ==> {
                        let after = CreatorModel { participants, ..before };
                        if undelivered(before.participants) == 1 {
                            next == SessionCreatorSessionModel::ParametersDistributed(after)
                        } else {
                            next == SessionCreatorSessionModel::CollectedSessions(after)
                        }
                    }
                },
                None => !(session is CollectedSessions),
            }),
            SessionCreatorEvent::Closed(outcome) => SessionCreatorSession::starts(event) is None
                && SessionCreatorSession::follows(session, event) == Some(
                SessionCreatorSessionModel::Closed(outcome),
            ),
        },
        !SessionCreatorSession::meets(session, event) <==> (session matches
            SessionCreatorSessionModel::CollectedSessions(context) && event matches
            SessionCreatorEvent::ParametersDeliveredTo(key) && delivered_to(
            context.participants,
            key,
        ) is Err),
{
    if let SessionCreatorSessionModel::CollectedSessions(before) = session {
        if let SessionCreatorEvent::ParametersDeliveredTo(key) = event {
            if delivered_to(before.participants, key) is Ok {
                law_delivery_serves_one_participant(before.participants, key);
                law_distribution_is_complete(delivered_to(before.participants, key)->Ok_0);
            }
        }
    }
}

/// What is said of a session is its state and what the state holds.
pub proof fn law_session_is_what_is_said(session: SessionCreatorSession)
    ensures
        match session {
            SessionCreatorSession::CollectedSessions(s) => session@ matches
                SessionCreatorSessionModel::CollectedSessions(c) && c == s.context@,
            SessionCreatorSession::ParametersDistributed(s) => session@ matches
                SessionCreatorSessionModel::ParametersDistributed(c) && c == s.context@,
            SessionCreatorSession::Closed(o) => session@ matches SessionCreatorSessionModel::Closed(
                p,
            ) && p == o,
        },
{
}

} // verus!
