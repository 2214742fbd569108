//! Multiparty session events, state, replay, and history.
use vstd::prelude::*;

use crate::hpke::HpkePublicKey;
use crate::multiparty::initiator::{
    Initialized as InitiatorInitialized, Initiator, InitiatorContext,
};
use crate::multiparty::participant::awaiting::{
    AwaitingModel, ParticipantAwaitingSessionParameters,
};
use crate::multiparty::participant::plan::Plan;
use crate::multiparty::participant::with_parameters::{
    with_cursor, HasPlan, HasSessionParameters, Participant, ParticipantContext, PlanExecuted,
};
use crate::multiparty::persist::{ended, open_handles, times, MultipartySessionRegistry};
use crate::multiparty::responder::{
    Initialized as ResponderInitialized, Responder, ResponderContext,
};
use crate::multiparty::session_creator::{
    all_delivered, delivered_to, CollectedSessions, CreatorModel, ParametersDistributed,
    SessionCreator, SessionCreatorContext,
};
use crate::multiparty::session_parameters::SessionParameters;
use crate::persist::{LogEvent, LogOperation, ReplayError, SessionPersister};
use crate::text::{concat, ends_with, lemma_ends_with};
use crate::uri::PjParam;

verus! {

/// Multiparty session event log entry.
#[derive(Debug, PartialEq, Eq)]
pub enum MultipartySessionEvent {
    InitiatorCreated(InitiatorContext),
    InitiatorRetrievedReplyKey(HpkePublicKey),
    ResponderCreated(ResponderContext),
    ResponderSentReplyKey,
    /// First event of a post-graduation participant log.
    SessionParametersAdopted(ParticipantContext),
    /// Participant generated its initial plan from available inputs and payment obligations.
    PlanGenerated(Plan),
    /// Participant executed a plan action and advanced to this cursor.
    PlanExecuted(usize),
    SessionCreatorCreated(SessionCreatorContext),
    SessionCreatorParametersDeliveredTo(HpkePublicKey),
    /// Session parameters were acknowledged by every committed participant.
    SessionCreatorAllParametersDelivered,
    Closed(MultipartySessionOutcome),
}

/// Outcome when a multiparty session closes.
#[derive(Debug, PartialEq, Eq)]
pub enum MultipartySessionOutcome {
    /// Session failed before completing the protocol.
    Failure,
    /// Pre-parameters phase complete; session parameters continue in a new log.
    Graduated(SessionParameters),
}

impl Clone for MultipartySessionOutcome {
    fn clone(&self) -> (r: Self)
        ensures
            r == *self,
    {
        match self {
            MultipartySessionOutcome::Failure => MultipartySessionOutcome::Failure,
            MultipartySessionOutcome::Graduated(p) => MultipartySessionOutcome::Graduated(
                p.clone(),
            ),
        }
    }
}

impl Clone for MultipartySessionEvent {
    fn clone(&self) -> (r: Self)
        ensures
            r == *self,
    {
        match self {
            MultipartySessionEvent::InitiatorCreated(c) =>
                MultipartySessionEvent::InitiatorCreated(c.clone()),
            MultipartySessionEvent::InitiatorRetrievedReplyKey(k) =>
                MultipartySessionEvent::InitiatorRetrievedReplyKey(*k),
            MultipartySessionEvent::ResponderCreated(c) =>
                MultipartySessionEvent::ResponderCreated(c.clone()),
            MultipartySessionEvent::ResponderSentReplyKey =>
                MultipartySessionEvent::ResponderSentReplyKey,
            MultipartySessionEvent::SessionParametersAdopted(c) =>
                MultipartySessionEvent::SessionParametersAdopted(c.clone()),
            MultipartySessionEvent::PlanGenerated(p) => MultipartySessionEvent::PlanGenerated(
                p.clone(),
            ),
            MultipartySessionEvent::PlanExecuted(n) => MultipartySessionEvent::PlanExecuted(*n),
            MultipartySessionEvent::SessionCreatorCreated(c) =>
                MultipartySessionEvent::SessionCreatorCreated(c.clone()),
            MultipartySessionEvent::SessionCreatorParametersDeliveredTo(k) =>
                MultipartySessionEvent::SessionCreatorParametersDeliveredTo(*k),
            MultipartySessionEvent::SessionCreatorAllParametersDelivered =>
                MultipartySessionEvent::SessionCreatorAllParametersDelivered,
            MultipartySessionEvent::Closed(o) => MultipartySessionEvent::Closed(o.clone()),
        }
    }
}

impl LogEvent for MultipartySessionEvent {
    fn copy_event(&self) -> (r: Self) {
        self.clone()
    }
}

impl MultipartySessionEvent {
    pub fn closed(outcome: MultipartySessionOutcome) -> (r: Self)
        ensures
            r == MultipartySessionEvent::Closed(outcome),
    {
        Self::Closed(outcome)
    }
}

/// Type-erased multiparty session state for replay and persistence.
#[derive(Debug, PartialEq, Eq)]
pub enum MultipartySession {
    InitiatorInitialized(Initiator<InitiatorInitialized>),
    ResponderInitialized(Responder<ResponderInitialized>),
    ParticipantAwaitingSessionParameters(ParticipantAwaitingSessionParameters),
    ParticipantHasSessionParameters(Participant<HasSessionParameters>),
    ParticipantHasPlan(Participant<HasPlan>),
    ParticipantPlanExecuted(Participant<PlanExecuted>),
    SessionCreatorCollectedSessions(SessionCreator<CollectedSessions>),
    SessionCreatorParametersDistributed(SessionCreator<ParametersDistributed>),
    Closed(MultipartySessionOutcome),
}

/// What is known of a session.
pub enum SessionModel {
    InitiatorInitialized(InitiatorContext),
    ResponderInitialized(ResponderContext),
    ParticipantAwaitingSessionParameters(AwaitingModel),
    ParticipantHasSessionParameters(ParticipantContext),
    ParticipantHasPlan(ParticipantContext, Plan, usize),
    ParticipantPlanExecuted(ParticipantContext),
    SessionCreatorCollectedSessions(CreatorModel),
    SessionCreatorParametersDistributed(CreatorModel),
    Closed(MultipartySessionOutcome),
}

impl View for MultipartySession {
    type V = SessionModel;

    open spec fn view(&self) -> SessionModel {
        match self {
            MultipartySession::InitiatorInitialized(s) => SessionModel::InitiatorInitialized(
                s.context,
            ),
            MultipartySession::ResponderInitialized(s) => SessionModel::ResponderInitialized(
                s.context,
            ),
            MultipartySession::ParticipantAwaitingSessionParameters(s) =>
                SessionModel::ParticipantAwaitingSessionParameters(s@),
            MultipartySession::ParticipantHasSessionParameters(s) =>
                SessionModel::ParticipantHasSessionParameters(s.context),
            MultipartySession::ParticipantHasPlan(s) => SessionModel::ParticipantHasPlan(
                s.context,
                s.state.plan,
                s.state.plan_cursor,
            ),
            MultipartySession::ParticipantPlanExecuted(s) =>
                SessionModel::ParticipantPlanExecuted(s.context),
            MultipartySession::SessionCreatorCollectedSessions(s) =>
                SessionModel::SessionCreatorCollectedSessions(s.context@),
            MultipartySession::SessionCreatorParametersDistributed(s) =>
                SessionModel::SessionCreatorParametersDistributed(s.context@),
            MultipartySession::Closed(o) => SessionModel::Closed(*o),
        }
    }
}

impl MultipartySession {
    pub fn is_pending_parameters(&self) -> (r: bool)
        ensures
            r == (self@ is ParticipantAwaitingSessionParameters),
    {
        match self {
            MultipartySession::ParticipantAwaitingSessionParameters(_) => true,
            _ => false,
        }
    }
}

/// The session that an event starts, if it starts one.
pub open spec fn start(event: MultipartySessionEvent) -> Option<SessionModel> {
    match event {
        MultipartySessionEvent::InitiatorCreated(c) => Some(SessionModel::InitiatorInitialized(c)),
        MultipartySessionEvent::ResponderCreated(c) => Some(SessionModel::ResponderInitialized(c)),
        MultipartySessionEvent::SessionCreatorCreated(c) => Some(
            SessionModel::SessionCreatorCollectedSessions(c@),
        ),
        MultipartySessionEvent::SessionParametersAdopted(c) => Some(
            SessionModel::ParticipantHasSessionParameters(c),
        ),
        MultipartySessionEvent::Closed(o) => Some(SessionModel::Closed(o)),
        _ => None,
    }
}

/// The session after one more event, if the event can follow.
pub open spec fn step(session: SessionModel, event: MultipartySessionEvent) -> Option<SessionModel> {
    match (session, event) {
        (_, MultipartySessionEvent::Closed(o)) => Some(SessionModel::Closed(o)),
        (
            SessionModel::InitiatorInitialized(c),
            MultipartySessionEvent::InitiatorRetrievedReplyKey(key),
        ) => Some(SessionModel::ParticipantAwaitingSessionParameters(c.awaiting(key))),
        (
            SessionModel::ResponderInitialized(c),
            MultipartySessionEvent::ResponderSentReplyKey,
        ) => if c.pj_param is V2 {
            Some(SessionModel::ParticipantAwaitingSessionParameters(c.awaiting()))
        } else {
            None
        },
        (
            SessionModel::SessionCreatorCollectedSessions(c),
            MultipartySessionEvent::SessionCreatorParametersDeliveredTo(key),
        ) => Some(
            SessionModel::SessionCreatorCollectedSessions(
                CreatorModel { participants: delivered_to(c.participants, key)->Ok_0, ..c },
            ),
        ),
        (
            SessionModel::SessionCreatorCollectedSessions(c),
            MultipartySessionEvent::SessionCreatorAllParametersDelivered,
        ) => Some(SessionModel::SessionCreatorParametersDistributed(c)),
        (
            SessionModel::ParticipantHasSessionParameters(c),
            MultipartySessionEvent::PlanGenerated(plan),
        ) => Some(SessionModel::ParticipantHasPlan(c, plan, 0)),
        (
            SessionModel::ParticipantHasPlan(c, plan, _),
            MultipartySessionEvent::PlanExecuted(cursor),
        ) => Some(with_cursor(c, plan, cursor)),
        _ => None,
    }
}

/// Whether an event can be met in this state at all. A log that was written by saving transitions
/// holds no other: a delivery is only noted for a participant that it is due to, and all deliveries
/// once every participant has acknowledged.
pub open spec fn can_meet(session: SessionModel, event: MultipartySessionEvent) -> bool {
    match (session, event) {
        (
            SessionModel::SessionCreatorCollectedSessions(c),
            MultipartySessionEvent::SessionCreatorParametersDeliveredTo(key),
        ) => delivered_to(c.participants, key) is Ok,
        (
            SessionModel::SessionCreatorCollectedSessions(c),
            MultipartySessionEvent::SessionCreatorAllParametersDelivered,
        ) => all_delivered(c.participants),
        _ => true,
    }
}

/// What replaying a log comes to.
pub enum Replayed {
    NoEvents,
    /// The first event that cannot follow, and the session before it.
    Invalid(MultipartySessionEvent, Option<SessionModel>),
    Session(SessionModel),
}

/// What replaying a log comes to.
pub open spec fn replayed(events: Seq<MultipartySessionEvent>) -> Replayed
    decreases events.len(),
{
    if events.len() == 0 {
        Replayed::NoEvents
    } else if events.len() == 1 {
        match start(events[0]) {
            Some(session) => Replayed::Session(session),
            None => Replayed::Invalid(events[0], None),
        }
    } else {
        match replayed(events.drop_last()) {
            Replayed::Session(session) => match step(session, events.last()) {
                Some(next) => Replayed::Session(next),
                None => Replayed::Invalid(events.last(), Some(session)),
            },
            failure => failure,
        }
    }
}

/// Whether every event of a log can be met in the state before it.
pub open spec fn replayable(events: Seq<MultipartySessionEvent>) -> bool
    decreases events.len(),
{
    if events.len() <= 1 {
        true
    } else {
        &&& replayable(events.drop_last())
        &&& replayed(events.drop_last()) matches Replayed::Session(session) ==> can_meet(
            session,
            events.last(),
        )
    }
}

/// Whether a result of replaying is the one that is due.
pub open spec fn reports<F>(
    r: Result<MultipartySession, ReplayError<MultipartySession, MultipartySessionEvent, F>>,
    due: Replayed,
) -> bool {
    match due {
        Replayed::NoEvents => r matches Err(ReplayError::NoEvents),
        Replayed::Invalid(event, before) => r matches Err(ReplayError::InvalidEvent(e, s)) && e
            == event && (match s {
            Some(session) => before == Some(session@),
            None => before is None,
        }),
        Replayed::Session(m) => r matches Ok(session) && session@ == m,
    }
}

impl MultipartySession {
    /// The session that an event starts.
    pub fn from_first_event<F>(event: MultipartySessionEvent) -> (r: Result<
        MultipartySession,
        ReplayError<MultipartySession, MultipartySessionEvent, F>,
    >)
        ensures
            reports(
                r,
                match start(event) {
                    Some(session) => Replayed::Session(session),
                    None => Replayed::Invalid(event, None),
                },
            ),
    {
        match event {
            MultipartySessionEvent::InitiatorCreated(context) => Ok(
                MultipartySession::InitiatorInitialized(
                    Initiator { state: InitiatorInitialized {  }, context },
                ),
            ),
            MultipartySessionEvent::ResponderCreated(context) => Ok(
                MultipartySession::ResponderInitialized(
                    Responder { state: ResponderInitialized {  }, context },
                ),
            ),
            MultipartySessionEvent::SessionCreatorCreated(context) => Ok(
                MultipartySession::SessionCreatorCollectedSessions(
                    SessionCreator { state: CollectedSessions {  }, context },
                ),
            ),
            MultipartySessionEvent::SessionParametersAdopted(context) => Ok(
                MultipartySession::ParticipantHasSessionParameters(
                    Participant::from_adopted_context(context),
                ),
            ),
            MultipartySessionEvent::Closed(outcome) => Ok(MultipartySession::Closed(outcome)),
            event => Err(ReplayError::InvalidEvent(event, None)),
        }
    }

    /// The session after one more event.
    pub fn process_event<F>(self, event: MultipartySessionEvent) -> (r: Result<
        MultipartySession,
        ReplayError<MultipartySession, MultipartySessionEvent, F>,
    >)
        requires
            can_meet(self@, event),
        ensures
            reports(
                r,
                match step(self@, event) {
                    Some(session) => Replayed::Session(session),
                    None => Replayed::Invalid(event, Some(self@)),
                },
            ),
    {
        match (self, event) {
            (
                MultipartySession::InitiatorInitialized(state),
                MultipartySessionEvent::InitiatorRetrievedReplyKey(reply_key),
            ) => Ok(state.apply_retrieved_reply_key(reply_key)),
            (
                MultipartySession::ResponderInitialized(state),
                MultipartySessionEvent::ResponderSentReplyKey,
            ) => if let PjParam::V2(_) = &state.context.pj_param {
                Ok(state.apply_sent_reply_key())
            } else {
                Err(
                    ReplayError::InvalidEvent(
                        MultipartySessionEvent::ResponderSentReplyKey,
                        Some(MultipartySession::ResponderInitialized(state)),
                    ),
                )
            },
            (
                MultipartySession::SessionCreatorCollectedSessions(state),
                MultipartySessionEvent::SessionCreatorParametersDeliveredTo(recipient),
            ) => Ok(state.apply_parameters_delivered(recipient)),
            (
                MultipartySession::SessionCreatorCollectedSessions(state),
                MultipartySessionEvent::SessionCreatorAllParametersDelivered,
            ) => Ok(state.apply_all_parameters_delivered()),
            (
                MultipartySession::ParticipantHasSessionParameters(state),
                MultipartySessionEvent::PlanGenerated(plan),
            ) => Ok(state.apply_with_plan(plan)),
            (
                MultipartySession::ParticipantHasPlan(state),
                MultipartySessionEvent::PlanExecuted(plan_cursor),
            ) => Ok(state.apply_with_plan_cursor(plan_cursor)),
            (_, MultipartySessionEvent::Closed(outcome)) => Ok(MultipartySession::Closed(outcome)),
            (current_state, event) => Err(ReplayError::InvalidEvent(event, Some(current_state))),
        }
    }
}

/// Replays some events, oldest first.
pub fn replay_list<F>(events: &Vec<MultipartySessionEvent>) -> (r: Result<
    MultipartySession,
    ReplayError<MultipartySession, MultipartySessionEvent, F>,
>)
    requires
        replayable(events@),
    ensures
        reports(r, replayed(events@)),
{
    if events.len() == 0 {
        return Err(ReplayError::NoEvents);
    }
    let n: usize = events.len();
    let mut session = match MultipartySession::from_first_event::<F>(events[0].clone()) {
        Ok(session) => session,
        Err(e) => {
            proof {
                lemma_first_event_fails(events@);
            }
            return Err(e);
        },
    };
    let mut i: usize = 1;
    assert(events@.take(1)[0] == events@[0]);
    while i < n
        invariant
            1 <= i <= n,
            n == events@.len(),
            replayable(events@),
            replayed(events@.take(i as int)) == Replayed::Session(session@),
        decreases n - i,
    {
        proof {
            lemma_replayable_front(events@, i + 1);
            assert(events@.take(i + 1).drop_last() =~= events@.take(i as int));
            assert(events@.take(i + 1).last() == events@[i as int]);
        }
        session = match session.process_event::<F>(events[i].clone()) {
            Ok(session) => session,
            Err(e) => {
                proof {
                    lemma_failure_stays(events@, i + 1);
                }
                return Err(e);
            },
        };
        i += 1;
    }
    assert(events@.take(i as int) =~= events@);
    Ok(session)
}

/// A log that starts with an event that starts nothing.
proof fn lemma_first_event_fails(events: Seq<MultipartySessionEvent>)
    requires
        events.len() > 0,
        start(events[0]) is None,
    ensures
        replayed(events) == Replayed::Invalid(events[0], None),
    decreases events.len(),
{
    if events.len() > 1 {
        lemma_first_event_fails(events.drop_last());
    }
}

/// A failure in the front of a log is the failure of the log.
proof fn lemma_failure_stays(events: Seq<MultipartySessionEvent>, n: int)
    requires
        1 <= n <= events.len(),
        !(replayed(events.take(n)) is Session),
    ensures
        replayed(events) == replayed(events.take(n)),
    decreases events.len(),
{
    if n == events.len() {
        assert(events.take(n) =~= events);
    } else {
        assert(events.drop_last().take(n) =~= events.take(n));
        lemma_failure_stays(events.drop_last(), n);
    }
}

/// The front of a replayable log is replayable.
proof fn lemma_replayable_front(events: Seq<MultipartySessionEvent>, n: int)
    requires
        0 <= n <= events.len(),
        replayable(events),
    ensures
        replayable(events.take(n)),
    decreases events.len(),
{
    if n == events.len() {
        assert(events.take(n) =~= events);
    } else {
        if events.len() > 1 {
            assert(events.drop_last().take(n) =~= events.take(n));
            lemma_replayable_front(events.drop_last(), n);
        }
    }
}

impl MultipartySession {
    /// Whether an event can be met in this state at all.
    pub fn can_meet_event(&self, event: &MultipartySessionEvent) -> (r: bool)
        ensures
            r == can_meet(self@, *event),
    {
        match (self, event) {
            (
                MultipartySession::SessionCreatorCollectedSessions(state),
                MultipartySessionEvent::SessionCreatorParametersDeliveredTo(recipient),
            ) => state.context.is_due(recipient),
            (
                MultipartySession::SessionCreatorCollectedSessions(state),
                MultipartySessionEvent::SessionCreatorAllParametersDelivered,
            ) => state.context.all_parameters_delivered(),
            _ => true,
        }
    }
}

/// Whether every event of a log can be met in the state before it.
pub fn is_replayable(events: &Vec<MultipartySessionEvent>) -> (r: bool)
    ensures
        r == replayable(events@),
{
    let n: usize = events.len();
    if n <= 1 {
        return true;
    }
    let mut session = match MultipartySession::from_first_event::<()>(events[0].clone()) {
        Ok(session) => session,
        Err(_) => {
            proof {
                lemma_invalid_is_replayable(events@, 1);
            }
            return true;
        },
    };
    let mut i: usize = 1;
    assert(events@.take(1)[0] == events@[0]);
    while i < n
        invariant
            1 <= i <= n,
            n == events@.len(),
            replayable(events@.take(i as int)),
            replayed(events@.take(i as int)) == Replayed::Session(session@),
        decreases n - i,
    {
        proof {
            assert(events@.take(i + 1).drop_last() =~= events@.take(i as int));
            assert(events@.take(i + 1).last() == events@[i as int]);
        }
        if !session.can_meet_event(&events[i]) {
            proof {
                assert(!replayable(events@.take(i + 1)));
                if replayable(events@) {
                    lemma_replayable_front(events@, i + 1);
                }
            }
            return false;
        }
        session = match session.process_event::<()>(events[i].clone()) {
            Ok(session) => session,
            Err(_) => {
                proof {
                    lemma_invalid_is_replayable(events@, i + 1);
                }
                return true;
            },
        };
        i += 1;
    }
    assert(events@.take(i as int) =~= events@);
    true
}

/// Whatever follows an event that cannot follow is never met.
proof fn lemma_invalid_is_replayable(events: Seq<MultipartySessionEvent>, n: int)
    requires
        1 <= n <= events.len(),
        replayable(events.take(n)),
        !(replayed(events.take(n)) is Session),
    ensures
        replayable(events),
    decreases events.len(),
{
    if n == events.len() {
        assert(events.take(n) =~= events);
    } else {
        assert(events.drop_last().take(n) =~= events.take(n));
        lemma_invalid_is_replayable(events.drop_last(), n);
        lemma_failure_stays(events.drop_last(), n);
    }
}

/// A collection of events from a multiparty session, from [`replay_event_log`].
#[derive(Debug, PartialEq, Eq)]
pub struct SessionHistory {
    events: Vec<MultipartySessionEvent>,
}

impl SessionHistory {
    /// The events.
    pub closed spec fn spec_events(self) -> Seq<MultipartySessionEvent> {
        self.events@
    }

    pub fn new(events: Vec<MultipartySessionEvent>) -> (r: Self)
        requires
            events@.len() > 0,
        ensures
            r.spec_events() == events@,
    {
        Self { events }
    }

    /// The events, oldest first.
    pub fn events(&self) -> (r: &Vec<MultipartySessionEvent>)
        ensures
            r@ == self.spec_events(),
    {
        &self.events
    }
}

/// Inferred status of a multiparty session from its event log.
#[derive(Debug, PartialEq, Eq)]
pub enum SessionStatus {
    InitiatorActive,
    ResponderActive,
    ParticipantAwaitingSessionParameters,
    ParticipantHasSessionParameters,
    ParticipantHasPlan,
    ParticipantPlanExecuted,
    SessionCreatorCollectingParameters,
    SessionCreatorParametersDistributed,
    Closed(MultipartySessionOutcome),
}

/// Replays the events of a log: the session in its current state, and the events.
pub fn replay_events<P: SessionPersister<SessionEvent = MultipartySessionEvent>>(persister: &P) -> (r:
    Result<
        (MultipartySession, Vec<MultipartySessionEvent>),
        ReplayError<MultipartySession, MultipartySessionEvent, P::InternalStorageError>,
    >)
    requires
        replayable(persister.events()),
    ensures
        match r {
            Ok((session, events)) => replayed(persister.events()) == Replayed::Session(session@)
                && events@ == persister.events(),
            Err(ReplayError::PersistenceFailure(e)) => !persister.reliable() && P::failed(
                LogOperation::Load,
                e,
            ),
            Err(e) => reports(Err(e), replayed(persister.events())),
        },
{
    let events = match persister.load() {
        Ok(events) => events,
        Err(e) => return Err(ReplayError::PersistenceFailure(e)),
    };
    match replay_list(&events) {
        Ok(session) => Ok((session, events)),
        Err(e) => Err(e),
    }
}

/// Replay a multiparty event log to get the session in its current state and history. A log that
/// cannot be replayed is closed.
pub fn replay_event_log<P: SessionPersister<SessionEvent = MultipartySessionEvent>>(
    persister: &mut P,
) -> (r: Result<
    (MultipartySession, SessionHistory),
    ReplayError<MultipartySession, MultipartySessionEvent, P::InternalStorageError>,
>)
    requires
        replayable(old(persister).events()),
    ensures
        final(persister).events() == old(persister).events(),
        final(persister).reliable() == old(persister).reliable(),
        match r {
            Ok((session, history)) => {
                &&& replayed(old(persister).events()) == Replayed::Session(session@)
                &&& history.spec_events() == old(persister).events()
                &&& *final(persister) == *old(persister)
            },
            Err(ReplayError::PersistenceFailure(e)) => {
                &&& !old(persister).reliable()
                &&& {
                    ||| P::failed(LogOperation::Load, e) && final(persister).closed()
                    ||| P::failed(LogOperation::Close, e) && final(persister).closed() == old(
                        persister,
                    ).closed()
                }
            },
            Err(e) => reports(Err(e), replayed(old(persister).events())) && final(persister).closed(),
        },
{
    match replay_events(persister) {
        Ok((session, events)) => {
            proof {
                if events@.len() == 0 {
                    assert(replayed(events@) is NoEvents);
                }
            }
            Ok((session, SessionHistory::new(events)))
        },
        Err(e) => {
            if let Err(ce) = persister.close() {
                return Err(ReplayError::PersistenceFailure(ce));
            }
            Err(e)
        },
    }
}

/// Errors from [`collect_open_sessions_awaiting_parameters`].
pub enum CollectAwaitingParametersError<R: MultipartySessionRegistry> {
    Registry(R::Error),
    Replay(
        ReplayError<
            MultipartySession,
            MultipartySessionEvent,
            <R::Persister as SessionPersister>::InternalStorageError,
        >,
    ),
}

impl<R: MultipartySessionRegistry> CollectAwaitingParametersError<R> {
    /// The message shown for this error, with the message of its cause.
    pub open spec fn spec_message(self, cause: Seq<char>) -> Seq<char> {
        match self {
            CollectAwaitingParametersError::Registry(_) => "registry error: "@ + cause,
            CollectAwaitingParametersError::Replay(_) => "replay error: "@ + cause,
        }
    }

    /// The message shown for this error, with the message of its cause.
    pub fn message(&self, cause: &str) -> (r: String)
        ensures
            r@ == self.spec_message(cause@),
    {
        match self {
            Self::Registry(_) => concat("registry error: ", cause),
            Self::Replay(_) => concat("replay error: ", cause),
        }
    }
}

/// What the open logs among the first `n` say of sessions that await session parameters: the
/// handle and the state of each, oldest log first; or the failure of the first log that cannot be
/// replayed.
pub open spec fn awaiting_sessions<P: SessionPersister<SessionEvent = MultipartySessionEvent>>(
    persisters: Seq<P>,
    n: nat,
) -> Result<Seq<(usize, AwaitingModel)>, Replayed>
    decreases n,
{
    if n == 0 {
        Ok(Seq::empty())
    } else {
        match awaiting_sessions(persisters, (n - 1) as nat) {
            Err(failure) => Err(failure),
            Ok(before) => if persisters[n - 1].closed() {
                Ok(before)
            } else {
                match replayed(persisters[n - 1].events()) {
                    Replayed::NoEvents => Ok(before),
                    Replayed::Session(SessionModel::ParticipantAwaitingSessionParameters(m)) => Ok(
                        before.push(((n - 1) as usize, m)),
                    ),
                    Replayed::Session(_) => Ok(before),
                    failure => Err(failure),
                }
            },
        }
    }
}

/// The handle and what is known of each of some sessions.
pub open spec fn awaiting_views(
    awaiting: Seq<(usize, ParticipantAwaitingSessionParameters)>,
) -> Seq<(usize, AwaitingModel)> {
    awaiting.map_values(|entry: (usize, ParticipantAwaitingSessionParameters)| (entry.0, entry.1@))
}

/// What is known of the open logs before the one at position `k` of the list of open logs.
proof fn lemma_open_handle<P: SessionPersister<SessionEvent = MultipartySessionEvent>>(
    persisters: Seq<P>,
    n: nat,
    k: int,
)
    requires
        n <= persisters.len() <= usize::MAX,
        0 <= k < open_handles(persisters, n).len(),
    ensures
        ({
            let h = open_handles(persisters, n)[k];
            &&& h < n
            &&& !persisters[h as int].closed()
            &&& open_handles(persisters, h as nat) == open_handles(persisters, n).take(k)
            &&& open_handles(persisters, (h + 1) as nat) == open_handles(persisters, n).take(k + 1)
        }),
    decreases n,
{
    let all = open_handles(persisters, n);
    let before = open_handles(persisters, (n - 1) as nat);
    if k < before.len() {
        lemma_open_handle(persisters, (n - 1) as nat, k);
        assert(before.take(k) =~= all.take(k));
        assert(before.take(k + 1) =~= all.take(k + 1));
    } else {
        assert(all == before.push((n - 1) as usize));
        assert(all.take(k) =~= before);
        assert(all.take(k + 1) =~= all);
    }
}

/// Closed logs do not matter.
proof fn lemma_skip_closed<P: SessionPersister<SessionEvent = MultipartySessionEvent>>(
    persisters: Seq<P>,
    a: nat,
    b: nat,
)
    requires
        a <= b <= persisters.len() <= usize::MAX,
        open_handles(persisters, a) == open_handles(persisters, b),
    ensures
        awaiting_sessions(persisters, a) == awaiting_sessions(persisters, b),
    decreases b,
{
    if a < b {
        lemma_open_handles_grow(persisters, a, (b - 1) as nat);
        if !persisters[b - 1].closed() {
            assert(open_handles(persisters, b).len() > open_handles(persisters, a).len());
        }
        lemma_skip_closed(persisters, a, (b - 1) as nat);
    }
}

/// More logs hold more open logs.
proof fn lemma_open_handles_grow<P: SessionPersister<SessionEvent = MultipartySessionEvent>>(
    persisters: Seq<P>,
    a: nat,
    b: nat,
)
    requires
        a <= b,
    ensures
        open_handles(persisters, a).len() <= open_handles(persisters, b).len(),
        open_handles(persisters, a).len() == open_handles(persisters, b).len() ==> open_handles(
            persisters,
            a,
        ) == open_handles(persisters, b),
    decreases b,
{
    if a < b {
        lemma_open_handles_grow(persisters, a, (b - 1) as nat);
    }
}

/// A log that cannot be replayed is reported whatever comes after it.
proof fn lemma_awaiting_fails<P: SessionPersister<SessionEvent = MultipartySessionEvent>>(
    persisters: Seq<P>,
    a: nat,
    b: nat,
)
    requires
        a <= b,
        awaiting_sessions(persisters, a) is Err,
    ensures
        awaiting_sessions(persisters, b) == awaiting_sessions(persisters, a),
    decreases b,
{
    if a < b {
        lemma_awaiting_fails(persisters, a, (b - 1) as nat);
    }
}

/// Whether the open logs among the first `n`, up to the first one that cannot be replayed, can be
/// replayed without meeting an event that cannot be met.
pub open spec fn replayable_so_far<P: SessionPersister<SessionEvent = MultipartySessionEvent>>(
    persisters: Seq<P>,
    n: nat,
) -> bool
    decreases n,
{
    if n == 0 {
        true
    } else {
        let m = (n - 1) as nat;
        &&& replayable_so_far(persisters, m)
        &&& awaiting_sessions(persisters, m) is Ok && !persisters[m as int].closed() ==> replayable(
            persisters[m as int].events(),
        )
    }
}

/// Whether the open logs of a registry, up to the first one that cannot be replayed, can be
/// replayed without meeting an event that cannot be met. The logs behind it do not matter.
pub open spec fn all_replayable<P: SessionPersister<SessionEvent = MultipartySessionEvent>>(
    persisters: Seq<P>,
) -> bool {
    replayable_so_far(persisters, persisters.len())
}

/// What holds of more logs holds of the first ones.
proof fn lemma_replayable_so_far<P: SessionPersister<SessionEvent = MultipartySessionEvent>>(
    persisters: Seq<P>,
    a: nat,
    b: nat,
)
    requires
        a <= b,
        replayable_so_far(persisters, b),
    ensures
        replayable_so_far(persisters, a),
    decreases b,
{
    if a < b {
        lemma_replayable_so_far(persisters, a, (b - 1) as nat);
    }
}

/// Closed logs, and logs behind one that cannot be replayed, do not matter.
proof fn lemma_replayable_stays<P: SessionPersister<SessionEvent = MultipartySessionEvent>>(
    persisters: Seq<P>,
    a: nat,
    b: nat,
)
    requires
        a <= b <= persisters.len() <= usize::MAX,
        replayable_so_far(persisters, a),
        awaiting_sessions(persisters, a) is Err || open_handles(persisters, a) == open_handles(
            persisters,
            b,
        ),
    ensures
        replayable_so_far(persisters, b),
    decreases b,
{
    if a < b {
        let m = (b - 1) as nat;
        if awaiting_sessions(persisters, a) is Err {
            lemma_awaiting_fails(persisters, a, m);
        } else {
            lemma_open_handles_grow(persisters, a, m);
            if !persisters[m as int].closed() {
                assert(open_handles(persisters, b).len() > open_handles(persisters, a).len());
            }
        }
        lemma_replayable_stays(persisters, a, m);
    }
}

/// Whether a failure to collect is the one that is due.
pub open spec fn collect_reports<R: MultipartySessionRegistry>(
    error: CollectAwaitingParametersError<R>,
    registry: R,
) -> bool {
    match error {
        CollectAwaitingParametersError::Registry(_) => !registry.reliable(),
        CollectAwaitingParametersError::Replay(ReplayError::PersistenceFailure(e)) =>
            !registry.reliable() && R::Persister::failed(LogOperation::Load, e),
        CollectAwaitingParametersError::Replay(e) => awaiting_sessions(
            registry.persisters(),
            registry.persisters().len(),
        ) matches Err(failure) && reports(Err(e), failure),
    }
}

/// Replay every open session in `registry` and return those awaiting session parameters, with
/// their handles.
///
/// Empty logs and sessions still in initiator/responder bootstrap are skipped. Replay failures
/// other than an empty log are returned immediately.
pub fn collect_open_sessions_awaiting_parameters_with_persisters<R: MultipartySessionRegistry>(
    registry: &R,
) -> (r: Result<
    Vec<(usize, ParticipantAwaitingSessionParameters)>,
    CollectAwaitingParametersError<R>,
>)
    requires
        all_replayable(registry.persisters()),
    ensures
        match r {
            Ok(awaiting) => awaiting_sessions(
                registry.persisters(),
                registry.persisters().len(),
            ) == Ok::<_, Replayed>(awaiting_views(awaiting@)),
            Err(e) => collect_reports(e, *registry),
        },
        r matches Ok(awaiting) ==> forall|k: int|
            0 <= k < awaiting@.len() ==> (#[trigger] awaiting@[k]).0 < registry.persisters().len(),
        r matches Ok(awaiting) ==> {
            let logs = registry.persisters();
            &&& forall|i: int|
                0 <= i < logs.len() && !(#[trigger] logs[i]).closed() ==> !(replayed(
                    logs[i].events(),
                ) is Invalid)
            &&& forall|i: int|
                0 <= i < logs.len() && !(#[trigger] logs[i]).closed() ==> (replayed(
                    logs[i].events(),
                ) matches Replayed::Session(SessionModel::ParticipantAwaitingSessionParameters(m))
                    ==> exists|k: int|
                    0 <= k < awaiting@.len() && (#[trigger] awaiting@[k]).0 == i && awaiting@[k].1@
                        == m)
            &&& forall|k: int|
                0 <= k < awaiting@.len() ==> {
                    &&& !logs[(#[trigger] awaiting@[k]).0 as int].closed()
                    &&& replayed(logs[awaiting@[k].0 as int].events()) == Replayed::Session(
                        SessionModel::ParticipantAwaitingSessionParameters(awaiting@[k].1@),
                    )
                }
            &&& forall|k: int, l: int|
                0 <= k < l < awaiting@.len() ==> (#[trigger] awaiting@[k]).0 < (
                #[trigger] awaiting@[l]).0
        },
{
    let ghost ps = registry.persisters();
    let ghost total = ps.len();
    let handles = match registry.list_open() {
        Ok(handles) => handles,
        Err(e) => return Err(CollectAwaitingParametersError::Registry(e)),
    };
    proof {
        if registry.reliable() {
            registry.lemma_reliable();
        }
    }
    let mut awaiting: Vec<(usize, ParticipantAwaitingSessionParameters)> = Vec::new();
    let ghost mut seen: nat = 0;
    let n: usize = handles.len();
    let mut k: usize = 0;
    assert(handles@.take(0) =~= open_handles(ps, 0));
    assert(awaiting_views(awaiting@) =~= Seq::empty());
    while k < n
        invariant
            k <= n,
            n == handles@.len(),
            ps == registry.persisters(),
            total == ps.len(),
            total <= usize::MAX,
            handles@ == open_handles(ps, total),
            seen <= total,
            open_handles(ps, seen) == handles@.take(k as int),
            awaiting_sessions(ps, seen) == Ok::<_, Replayed>(awaiting_views(awaiting@)),
            all_replayable(ps),
            registry.reliable() ==> forall|i: int|
                0 <= i < ps.len() ==> (#[trigger] ps[i]).reliable(),
            forall|j: int| 0 <= j < awaiting@.len() ==> (#[trigger] awaiting@[j]).0 < total,
        decreases n - k,
    {
        let h: usize = handles[k];
        proof {
            lemma_open_handle(ps, total, k as int);
            if seen > h {
                lemma_open_handles_grow(ps, (h + 1) as nat, seen);
                assert(open_handles(ps, seen).len() == k);
                assert(open_handles(ps, (h + 1) as nat).len() == k + 1);
            }
            lemma_skip_closed(ps, seen, h as nat);
            lemma_replayable_so_far(ps, (h + 1) as nat, total);
        }
        let ghost before = awaiting_views(awaiting@);
        match replay_events(registry.persister(h)) {
            Ok((session, _)) => {
                if let MultipartySession::ParticipantAwaitingSessionParameters(participant) = session {
                    awaiting.push((h, participant));
                    assert(awaiting_views(awaiting@) =~= before.push((h, participant@)));
                }
            },
            Err(err) => {
                if !err.is_no_events() {
                    proof {
                        if !(err is PersistenceFailure) {
                            lemma_awaiting_fails(ps, (h + 1) as nat, total);
                        }
                    }
                    return Err(CollectAwaitingParametersError::Replay(err));
                }
            },
        }
        proof {
            seen = (h + 1) as nat;
        }
        k += 1;
    }
    proof {
        assert(handles@.take(k as int) =~= handles@);
        lemma_skip_closed(ps, seen, total);
        law_every_awaiting_session_is_collected(ps, total);
        let found = awaiting_views(awaiting@);
        assert forall|k: int| 0 <= k < awaiting@.len() implies #[trigger] found[k] == (
            awaiting@[k].0,
            awaiting@[k].1@,
        ) by {}
        assert forall|i: int| 0 <= i < ps.len() && !(#[trigger] ps[i]).closed() implies (replayed(
            ps[i].events(),
        ) matches Replayed::Session(SessionModel::ParticipantAwaitingSessionParameters(m))
            ==> exists|k: int|
            0 <= k < awaiting@.len() && (#[trigger] awaiting@[k]).0 == i && awaiting@[k].1@ == m) by {
            if let Replayed::Session(SessionModel::ParticipantAwaitingSessionParameters(m)) =
                replayed(ps[i].events()) {
                let k = choose|k: int|
                    0 <= k < found.len() && #[trigger] found[k] == (i as usize, m);
                assert(awaiting@[k].0 == i);
            }
        }
        assert forall|k: int| 0 <= k < awaiting@.len() implies {
            &&& !ps[(#[trigger] awaiting@[k]).0 as int].closed()
            &&& replayed(ps[awaiting@[k].0 as int].events()) == Replayed::Session(
                SessionModel::ParticipantAwaitingSessionParameters(awaiting@[k].1@),
            )
        } by {
            assert(found[k].0 == awaiting@[k].0);
        }
        assert forall|k: int, l: int| 0 <= k < l < awaiting@.len() implies (
        #[trigger] awaiting@[k]).0 < (#[trigger] awaiting@[l]).0 by {
            assert(found[k].0 < found[l].0);
        }
    }
    Ok(awaiting)
}

/// Like [`collect_open_sessions_awaiting_parameters_with_persisters`], without persister handles.
pub fn collect_open_sessions_awaiting_parameters<R: MultipartySessionRegistry>(registry: &R) -> (r:
    Result<Vec<ParticipantAwaitingSessionParameters>, CollectAwaitingParametersError<R>>)
    requires
        all_replayable(registry.persisters()),
    ensures
        match r {
            Ok(participants) => awaiting_sessions(
                registry.persisters(),
                registry.persisters().len(),
            ) matches Ok(awaiting) && participants@.map_values(
                |p: ParticipantAwaitingSessionParameters| p@,
            ) == awaiting.map_values(|entry: (usize, AwaitingModel)| entry.1),
            Err(e) => collect_reports(e, *registry),
        },
{
    let entries = match collect_open_sessions_awaiting_parameters_with_persisters(registry) {
        Ok(entries) => entries,
        Err(e) => return Err(e),
    };
    let ghost all = entries@;
    let mut participants: Vec<ParticipantAwaitingSessionParameters> = Vec::new();
    for entry in it: entries
        invariant
            it.seq() == all,
            participants@.len() == it.index(),
            forall|j: int| 0 <= j < it.index() ==> #[trigger] participants@[j] == all[j].1,
    {
        participants.push(entry.1);
    }
    assert(participants@.map_values(|p: ParticipantAwaitingSessionParameters| p@)
        =~= awaiting_views(all).map_values(|entry: (usize, AwaitingModel)| entry.1));
    Ok(participants)
}

/// Whether the open logs, up to the first one that cannot be replayed, can be replayed without
/// meeting an event that cannot be met. Where a log cannot be read, the answer is no.
pub fn registry_is_replayable<R: MultipartySessionRegistry>(registry: &R) -> (r: bool)
    ensures
        r ==> all_replayable(registry.persisters()),
        registry.reliable() ==> r == all_replayable(registry.persisters()),
{
    let ghost ps = registry.persisters();
    let ghost total = ps.len();
    let handles = match registry.list_open() {
        Ok(handles) => handles,
        Err(_) => return false,
    };
    proof {
        if registry.reliable() {
            registry.lemma_reliable();
        }
    }
    let ghost mut seen: nat = 0;
    let n: usize = handles.len();
    let mut k: usize = 0;
    assert(handles@.take(0) =~= open_handles(ps, 0));
    while k < n
        invariant
            k <= n,
            n == handles@.len(),
            ps == registry.persisters(),
            total == ps.len(),
            total <= usize::MAX,
            handles@ == open_handles(ps, total),
            registry.reliable() ==> forall|i: int|
                0 <= i < ps.len() ==> (#[trigger] ps[i]).reliable(),
            seen <= total,
            open_handles(ps, seen) == handles@.take(k as int),
            awaiting_sessions(ps, seen) is Ok,
            replayable_so_far(ps, seen),
        decreases n - k,
    {
        let h: usize = handles[k];
        proof {
            lemma_open_handle(ps, total, k as int);
            if seen > h {
                lemma_open_handles_grow(ps, (h + 1) as nat, seen);
                assert(open_handles(ps, seen).len() == k);
                assert(open_handles(ps, (h + 1) as nat).len() == k + 1);
            }
            lemma_skip_closed(ps, seen, h as nat);
            lemma_replayable_stays(ps, seen, h as nat);
        }
        let events = match registry.persister(h).load() {
            Ok(events) => events,
            Err(_) => return false,
        };
        if !is_replayable(&events) {
            proof {
                if all_replayable(ps) {
                    lemma_replayable_so_far(ps, (h + 1) as nat, total);
                }
            }
            return false;
        }
        if let Err(e) = replay_list::<()>(&events) {
            if !e.is_no_events() {
                proof {
                    lemma_replayable_stays(ps, (h + 1) as nat, total);
                }
                return true;
            }
        }
        proof {
            seen = (h + 1) as nat;
        }
        k += 1;
    }
    proof {
        assert(handles@.take(k as int) =~= handles@);
        lemma_replayable_stays(ps, seen, total);
    }
    true
}

/// Among the first `n` logs, exactly the open ones whose sessions await session parameters are
/// collected, each once and in the order of the logs; a collection fails exactly where an open log
/// cannot be replayed, and with the first such log.
pub proof fn law_every_awaiting_session_is_collected<
    P: SessionPersister<SessionEvent = MultipartySessionEvent>,
>(persisters: Seq<P>, n: nat)
    requires
        n <= persisters.len() <= usize::MAX,
    ensures
        awaiting_sessions(persisters, n) is Ok <==> forall|i: int|
            0 <= i < n && !(#[trigger] persisters[i]).closed() ==> !(replayed(
                persisters[i].events(),
            ) is Invalid),
        awaiting_sessions(persisters, n) matches Ok(found) ==> {
            &&& forall|i: int|
                0 <= i < n && !(#[trigger] persisters[i]).closed() ==> (replayed(
                    persisters[i].events(),
                ) matches Replayed::Session(SessionModel::ParticipantAwaitingSessionParameters(m))
                    ==> exists|k: int|
                    0 <= k < found.len() && #[trigger] found[k] == (i as usize, m))
            &&& forall|k: int|
                0 <= k < found.len() ==> {
                    &&& (#[trigger] found[k]).0 < n
                    &&& !persisters[found[k].0 as int].closed()
                    &&& replayed(persisters[found[k].0 as int].events()) == Replayed::Session(
                        SessionModel::ParticipantAwaitingSessionParameters(found[k].1),
                    )
                }
            &&& forall|k: int, l: int|
                0 <= k < l < found.len() ==> (#[trigger] found[k]).0 < (#[trigger] found[l]).0
        },
        awaiting_sessions(persisters, n) matches Err(failure) ==> exists|i: int|
            {
                &&& 0 <= i < n
                &&& !(#[trigger] persisters[i]).closed()
                &&& replayed(persisters[i].events()) is Invalid
                &&& replayed(persisters[i].events()) == failure
                &&& forall|j: int|
                    0 <= j < i && !(#[trigger] persisters[j]).closed() ==> !(replayed(
                        persisters[j].events(),
                    ) is Invalid)
            },
    decreases n,
{
    if n > 0 {
        let m = (n - 1) as nat;
        law_every_awaiting_session_is_collected(persisters, m);
        let log = persisters[m as int];
        match awaiting_sessions(persisters, m) {
            Ok(before) => {
                if awaiting_sessions(persisters, n) is Ok {
                    let found = awaiting_sessions(persisters, n)->Ok_0;
                    assert forall|i: int|
                        0 <= i < n && !(#[trigger] persisters[i]).closed() implies (replayed(
                        persisters[i].events(),
                    ) matches Replayed::Session(
                        SessionModel::ParticipantAwaitingSessionParameters(a),
                    ) ==> exists|k: int|
                        0 <= k < found.len() && #[trigger] found[k] == (i as usize, a)) by {
                        if let Replayed::Session(
                            SessionModel::ParticipantAwaitingSessionParameters(a),
                        ) = replayed(persisters[i].events()) {
                            if i < m {
                                let k = choose|k: int|
                                    0 <= k < before.len() && #[trigger] before[k] == (i as usize, a);
                                assert(found[k] == before[k]);
                            } else {
                                assert(found[found.len() - 1] == (i as usize, a));
                            }
                        }
                    }
                    assert forall|k: int| 0 <= k < found.len() implies {
                        &&& (#[trigger] found[k]).0 < n
                        &&& !persisters[found[k].0 as int].closed()
                        &&& replayed(persisters[found[k].0 as int].events()) == Replayed::Session(
                            SessionModel::ParticipantAwaitingSessionParameters(found[k].1),
                        )
                    } by {
                        if k < before.len() {
                            assert(found[k] == before[k]);
                        }
                    }
                    assert forall|k: int, l: int| 0 <= k < l < found.len() implies (
                    #[trigger] found[k]).0 < (#[trigger] found[l]).0 by {
                        assert(found[k] == before[k]);
                        assert(before[k].0 < m);
                        if l < before.len() {
                            assert(found[l] == before[l]);
                        }
                    }
                } else {
                    assert(replayed(log.events()) is Invalid);
                }
            },
            Err(_) => {},
        }
    }
}

/// Closing ends a session, whatever state it is in.
pub proof fn law_closing_ends_a_session(
    events: Seq<MultipartySessionEvent>,
    outcome: MultipartySessionOutcome,
)
    requires
        replayed(events) is Session,
    ensures
        replayed(events.push(MultipartySessionEvent::Closed(outcome))) == Replayed::Session(
            SessionModel::Closed(outcome),
        ),
        replayable(events) ==> replayable(events.push(MultipartySessionEvent::Closed(outcome))),
{
    let longer = events.push(MultipartySessionEvent::Closed(outcome));
    assert(longer.drop_last() =~= events);
}

/// Nothing but another closing can follow a closing.
pub proof fn law_nothing_follows_a_closing(
    outcome: MultipartySessionOutcome,
    event: MultipartySessionEvent,
)
    requires
        !(event is Closed),
    ensures
        step(SessionModel::Closed(outcome), event) is None,
{
}

/// Replaying a log, then one more event, is replaying the longer log.
pub proof fn law_replay_continues(
    events: Seq<MultipartySessionEvent>,
    session: SessionModel,
    event: MultipartySessionEvent,
)
    requires
        replayed(events) == Replayed::Session(session),
    ensures
        replayed(events.push(event)) == (match step(session, event) {
            Some(next) => Replayed::Session(next),
            None => Replayed::Invalid(event, Some(session)),
        }),
{
    assert(events.push(event).drop_last() =~= events);
}

/// A log that cannot be replayed stays so, whatever is appended.
pub proof fn law_invalid_log_stays_invalid(
    events: Seq<MultipartySessionEvent>,
    more: Seq<MultipartySessionEvent>,
)
    requires
        replayed(events) is Invalid,
    ensures
        replayed(events + more) == replayed(events),
{
    assert((events + more).take(events.len() as int) =~= events);
    lemma_failure_stays(events + more, events.len() as int);
}

/// What the logs among the first `n` say of sessions that await session parameters, once the log
/// `from` is closed.
proof fn lemma_closed_log_awaits_nothing<
    P: SessionPersister<SessionEvent = MultipartySessionEvent>,
>(before: Seq<P>, after: Seq<P>, from: usize, n: nat)
    requires
        n <= before.len() <= usize::MAX,
        n <= after.len(),
        from < n ==> after[from as int].closed(),
        forall|i: int| 0 <= i < n && i != from ==> #[trigger] after[i] == before[i],
        awaiting_sessions(before, n) is Ok,
    ensures
        awaiting_sessions(after, n) == Ok::<_, Replayed>(
            awaiting_sessions(before, n)->Ok_0.filter(|e: (usize, AwaitingModel)| e.0 != from),
        ),
    decreases n,
{
    reveal(Seq::filter);
    let pred = |e: (usize, AwaitingModel)| e.0 != from;
    if n > 0 {
        let m = (n - 1) as nat;
        lemma_closed_log_awaits_nothing(before, after, from, m);
        let fewer = awaiting_sessions(before, m)->Ok_0;
        let more = awaiting_sessions(before, n)->Ok_0;
        if more != fewer {
            assert(more.drop_last() =~= fewer);
        }
        if m != from {
            assert(after[m as int] == before[m as int]);
        }
    } else {
        assert(Seq::<(usize, AwaitingModel)>::empty().filter(pred) =~= Seq::empty());
    }
}

/// Once a participant has adopted session parameters, its session awaits none any more, while every
/// other session that awaited parameters still does; and the session goes on in the new log.
pub proof fn law_adoption_ends_the_wait<
    P: SessionPersister<SessionEvent = MultipartySessionEvent>,
>(before: Seq<P>, after: Seq<P>, from: usize, context: ParticipantContext)
    requires
        from < before.len() <= usize::MAX,
        awaiting_sessions(before, before.len()) is Ok,
        after.len() == before.len() + 1,
        after.last().events() == seq![MultipartySessionEvent::SessionParametersAdopted(context)],
        after[from as int].closed(),
        forall|i: int| 0 <= i < before.len() && i != from ==> #[trigger] after[i] == before[i],
    ensures
        awaiting_sessions(after, after.len()) == Ok::<_, Replayed>(
            awaiting_sessions(before, before.len())->Ok_0.filter(
                |e: (usize, AwaitingModel)| e.0 != from,
            ),
        ),
        replayed(after.last().events()) == Replayed::Session(
            SessionModel::ParticipantHasSessionParameters(context),
        ),
{
    lemma_closed_log_awaits_nothing(before, after, from, before.len());
}

/// Every session that is found to await parameters among the first logs is found among more.
proof fn lemma_awaiting_grows<P: SessionPersister<SessionEvent = MultipartySessionEvent>>(
    persisters: Seq<P>,
    a: nat,
    b: nat,
)
    requires
        a <= b,
        awaiting_sessions(persisters, b) is Ok,
    ensures
        awaiting_sessions(persisters, a) is Ok,
        awaiting_sessions(persisters, a)->Ok_0.is_prefix_of(awaiting_sessions(persisters, b)->Ok_0),
    decreases b,
{
    if a < b {
        lemma_awaiting_grows(persisters, a, (b - 1) as nat);
    }
}

/// A handle that stands in a list occurs in it.
proof fn lemma_listed_occurs(handles: Seq<usize>, k: int)
    requires
        0 <= k < handles.len(),
    ensures
        times(handles, handles[k] as int) > 0,
    decreases handles.len(),
{
    if k < handles.len() - 1 {
        lemma_listed_occurs(handles.drop_last(), k);
    }
}

/// No session awaits parameters in the first `n` logs once all that did are ended.
proof fn lemma_none_awaits<P: SessionPersister<SessionEvent = MultipartySessionEvent>>(
    before: Seq<P>,
    after: Seq<P>,
    handles: Seq<usize>,
    event: MultipartySessionEvent,
    n: nat,
)
    requires
        n <= before.len() <= usize::MAX,
        n <= after.len(),
        awaiting_sessions(before, before.len()) matches Ok(awaiting) && handles
            == awaiting.map_values(|entry: (usize, AwaitingModel)| entry.0),
        forall|i: int|
            0 <= i < n ==> #[trigger] ended(before[i], after[i], event, times(handles, i)),
    ensures
        awaiting_sessions(after, n) == Ok::<_, Replayed>(
            Seq::<(usize, AwaitingModel)>::empty(),
        ),
    decreases n,
{
    if n > 0 {
        let i = n - 1;
        let awaiting = awaiting_sessions(before, before.len())->Ok_0;
        lemma_none_awaits(before, after, handles, event, i as nat);
        lemma_awaiting_grows(before, n, before.len());
        lemma_awaiting_grows(before, i as nat, before.len());
        assert(ended(before[i], after[i], event, times(handles, i)));
        if !after[i].closed() {
            assert(after[i] == before[i]);
            if replayed(before[i].events()) matches Replayed::Session(
                SessionModel::ParticipantAwaitingSessionParameters(_),
            ) {
                let found = awaiting_sessions(before, n)->Ok_0;
                let k = found.len() - 1;
                assert(found[k].0 == i);
                assert(handles[k] == awaiting[k].0);
                lemma_listed_occurs(handles, k);
            }
        }
    }
}

/// Once every session that awaits parameters is ended for a session creator, none awaits parameters
/// any more, and the session creator goes on in the new log.
pub proof fn law_promotion_leaves_none_awaiting<
    P: SessionPersister<SessionEvent = MultipartySessionEvent>,
>(
    before: Seq<P>,
    after: Seq<P>,
    handles: Seq<usize>,
    event: MultipartySessionEvent,
    context: SessionCreatorContext,
)
    requires
        before.len() <= usize::MAX,
        awaiting_sessions(before, before.len()) matches Ok(awaiting) && handles
            == awaiting.map_values(|entry: (usize, AwaitingModel)| entry.0),
        after.len() == before.len() + 1,
        after.last().events() == seq![MultipartySessionEvent::SessionCreatorCreated(context)],
        forall|i: int|
            0 <= i < before.len() ==> #[trigger] ended(
                before[i],
                after[i],
                event,
                times(handles, i),
            ),
    ensures
        awaiting_sessions(after, after.len()) == Ok::<_, Replayed>(
            Seq::<(usize, AwaitingModel)>::empty(),
        ),
        replayed(after.last().events()) == Replayed::Session(
            SessionModel::SessionCreatorCollectedSessions(context@),
        ),
{
    lemma_none_awaits(before, after, handles, event, before.len());
}

/// A session starts with the event that creates its role, or that closes it, and with no other; it
/// starts with what the event says.
pub proof fn law_sessions_start(event: MultipartySessionEvent)
    ensures
        replayed(Seq::empty()) is NoEvents,
        replayed(seq![event]) == (match event {
            MultipartySessionEvent::InitiatorCreated(c) => Replayed::Session(
                SessionModel::InitiatorInitialized(c),
            ),
            MultipartySessionEvent::ResponderCreated(c) => Replayed::Session(
                SessionModel::ResponderInitialized(c),
            ),
            MultipartySessionEvent::SessionParametersAdopted(c) => Replayed::Session(
                SessionModel::ParticipantHasSessionParameters(c),
            ),
            MultipartySessionEvent::SessionCreatorCreated(c) => Replayed::Session(
                SessionModel::SessionCreatorCollectedSessions(
                    CreatorModel {
                        creator_key: c.creator_key,
                        directory: c.directory@,
                        ohttp_keys: c.ohttp_keys,
                        session_parameters: c.session_parameters@,
                        participants: c.participants@,
                    },
                ),
            ),
            MultipartySessionEvent::Closed(o) => Replayed::Session(SessionModel::Closed(o)),
            _ => Replayed::Invalid(event, None),
        }),
{
}

/// An initiator with the reply key of a responder awaits session parameters: in the responder's mailbox,
/// on its own directory, with its own key and OHTTP keys. No other state follows, and no other state
/// can retrieve a reply key.
pub proof fn law_initiator_awaits_parameters(session: SessionModel, key: HpkePublicKey)
    ensures
        match step(session, MultipartySessionEvent::InitiatorRetrievedReplyKey(key)) {
            Some(next) => {
                &&& session matches SessionModel::InitiatorInitialized(c)
                &&& next matches SessionModel::ParticipantAwaitingSessionParameters(m)
                &&& m.parameters_mailbox_public_key == key
                &&& m.reply_key == key
                &&& m.mailbox_key == c.initiator_key
                &&& m.ohttp_keys == c.ohttp_keys
                &&& m.directory.scheme == c.directory@.scheme
                &&& m.directory.authority == c.directory@.authority
                &&& m.directory.path == seq!['/']
                &&& m.directory.query is None && m.directory.fragment is None
            },
            None => !(session is InitiatorInitialized),
        },
{
}

/// A responder that has sent its reply key awaits session parameters: in its own mailbox, on the
/// directory of the invitation, with the OHTTP keys of the invitation. No other state can have sent a
/// reply key, and a responder to a v1 invitation cannot.
pub proof fn law_responder_awaits_parameters(session: SessionModel)
    ensures
        match step(session, MultipartySessionEvent::ResponderSentReplyKey) {
            Some(next) => {
                &&& session matches SessionModel::ResponderInitialized(c)
                &&& c.pj_param matches PjParam::V2(v2)
                &&& next matches SessionModel::ParticipantAwaitingSessionParameters(m)
                &&& m.parameters_mailbox_public_key == c.responder_key.public
                &&& m.mailbox_key == c.responder_key
                &&& m.reply_key == v2.receiver_pubkey
                &&& m.ohttp_keys == v2.ohttp_keys
                &&& m.directory.scheme == v2.directory@.scheme
                &&& m.directory.authority == v2.directory@.authority
                &&& m.directory.path == seq!['/']
                &&& m.directory.query is None && m.directory.fragment is None
            },
            None => session matches SessionModel::ResponderInitialized(c) ==> c.pj_param is V1,
        },
{
}

/// A participant that knows the session parameters goes on with a plan, from its first action; one with
/// a plan goes on at the cursor it has reached, and is done where the cursor has passed the last action.
/// Nothing else of the participant changes.
pub proof fn law_plan_is_followed(session: SessionModel, plan: Plan, cursor: usize)
    ensures
        match step(session, MultipartySessionEvent::PlanGenerated(plan)) {
            Some(next) => session matches SessionModel::ParticipantHasSessionParameters(c) && next
                == SessionModel::ParticipantHasPlan(c, plan, 0),
            None => !(session is ParticipantHasSessionParameters),
        },
        match step(session, MultipartySessionEvent::PlanExecuted(cursor)) {
            Some(next) => {
                &&& session matches SessionModel::ParticipantHasPlan(c, known, _)
                &&& cursor < known@.len() ==> next == SessionModel::ParticipantHasPlan(
                    c,
                    known,
                    cursor,
                )
                &&& cursor >= known@.len() ==> next == SessionModel::ParticipantPlanExecuted(c)
            },
            None => !(session is ParticipantHasPlan),
        },
{
}

/// A session creator notes deliveries until all are made; a delivery changes its list of participants
/// and nothing else, and that all are made changes nothing that it knows. No other state notes
/// deliveries.
pub proof fn law_creator_notes_deliveries(session: SessionModel, key: HpkePublicKey)
    ensures
        match step(session, MultipartySessionEvent::SessionCreatorParametersDeliveredTo(key)) {
            Some(next) => {
                &&& session matches SessionModel::SessionCreatorCollectedSessions(c)
                &&& next matches SessionModel::SessionCreatorCollectedSessions(d)
                &&& d.creator_key == c.creator_key
                &&& d.directory == c.directory
                &&& d.ohttp_keys == c.ohttp_keys
                &&& d.session_parameters == c.session_parameters
                &&& delivered_to(c.participants, key) matches Ok(after) ==> d.participants == after
            },
            None => !(session is SessionCreatorCollectedSessions),
        },
        match step(session, MultipartySessionEvent::SessionCreatorAllParametersDelivered) {
            Some(next) => {
                &&& session matches SessionModel::SessionCreatorCollectedSessions(c)
                &&& next == SessionModel::SessionCreatorParametersDistributed(c)
            },
            None => !(session is SessionCreatorCollectedSessions),
        },
{
}

/// No session goes on with an event that creates a role: such an event only stands first in a log.
pub proof fn law_roles_are_created_once(session: SessionModel, event: MultipartySessionEvent)
    requires
        event is InitiatorCreated || event is ResponderCreated || event is SessionParametersAdopted
            || event is SessionCreatorCreated,
    ensures
        step(session, event) is None,
{
}

/// A log can be replayed without meeting an event that cannot be met exactly where every event can be
/// met in the state that the events before it lead to.
pub proof fn law_replayable_event_by_event(events: Seq<MultipartySessionEvent>)
    ensures
        replayable(events) <==> forall|k: int|
            1 <= k < events.len() ==> (replayed(#[trigger] events.take(k)) matches Replayed::Session(
                session,
            ) ==> can_meet(session, events[k])),
    decreases events.len(),
{
    if events.len() > 1 {
        let front = events.drop_last();
        let n = events.len() - 1;
        law_replayable_event_by_event(front);
        assert(events.take(n) =~= front);
        if replayable(events) {
            assert forall|k: int| 1 <= k < events.len() implies (replayed(
                #[trigger] events.take(k),
            ) matches Replayed::Session(session) ==> can_meet(session, events[k])) by {
                if k < n {
                    assert(front.take(k) =~= events.take(k));
                    assert(front[k] == events[k]);
                }
            }
        } else if replayable(front) {
            assert(!(replayed(events.take(n)) matches Replayed::Session(session) ==> can_meet(
                session,
                events[n],
            )));
        } else {
            let k = choose|k: int|
                1 <= k < front.len() && !(replayed(#[trigger] front.take(k)) matches
                    Replayed::Session(session) ==> can_meet(session, front[k]));
            assert(front.take(k) =~= events.take(k));
            assert(front[k] == events[k]);
        }
    }
}

/// What cannot be met is a delivery to someone it is not due to, and that all deliveries are made before
/// they are.
pub proof fn law_what_can_be_met(session: SessionModel, event: MultipartySessionEvent)
    ensures
        !can_meet(session, event) <==> (session matches
            SessionModel::SessionCreatorCollectedSessions(c) && match event {
            MultipartySessionEvent::SessionCreatorParametersDeliveredTo(key) => delivered_to(
                c.participants,
                key,
            ) is Err,
            MultipartySessionEvent::SessionCreatorAllParametersDelivered => c.participants.len()
                == 0 || exists|i: int|
                0 <= i < c.participants.len() && !(
                #[trigger] c.participants[i]).parameters_delivered,
            _ => false,
        }),
{
}

/// A replay gives the session that is due, or says what cannot follow and what it would have followed.
pub proof fn law_replay_is_reported<F>(
    r: Result<MultipartySession, ReplayError<MultipartySession, MultipartySessionEvent, F>>,
    due: Replayed,
)
    requires
        reports(r, due),
    ensures
        r is Ok <==> due is Session,
        r matches Ok(session) ==> due == Replayed::Session(session@),
        r matches Err(ReplayError::InvalidEvent(event, before)) ==> due == Replayed::Invalid(
            event,
            match before {
                Some(session) => Some(session@),
                None => None,
            },
        ),
        r matches Err(e) ==> e is NoEvents || e is InvalidEvent,
        r matches Err(e) && e is NoEvents ==> due is NoEvents,
{
}

/// What is said of a session is its state and what the state holds.
pub proof fn law_session_is_what_is_said(session: MultipartySession)
    ensures
        match session {
            MultipartySession::InitiatorInitialized(s) => session@ matches
                SessionModel::InitiatorInitialized(c) && c == s.context,
            MultipartySession::ResponderInitialized(s) => session@ matches
                SessionModel::ResponderInitialized(c) && c == s.context,
            MultipartySession::ParticipantAwaitingSessionParameters(s) => session@ matches
                SessionModel::ParticipantAwaitingSessionParameters(m) && m == s@,
            MultipartySession::ParticipantHasSessionParameters(s) => session@ matches
                SessionModel::ParticipantHasSessionParameters(c) && c == s.context,
            MultipartySession::ParticipantHasPlan(s) => session@ matches
                SessionModel::ParticipantHasPlan(c, plan, cursor) && c == s.context && plan
                == s.state.plan && cursor == s.state.plan_cursor,
            MultipartySession::ParticipantPlanExecuted(s) => session@ matches
                SessionModel::ParticipantPlanExecuted(c) && c == s.context,
            MultipartySession::SessionCreatorCollectedSessions(s) => session@ matches
                SessionModel::SessionCreatorCollectedSessions(m) && m == s.context@,
            MultipartySession::SessionCreatorParametersDistributed(s) => session@ matches
                SessionModel::SessionCreatorParametersDistributed(m) && m == s.context@,
            MultipartySession::Closed(o) => session@ matches SessionModel::Closed(p) && p == o,
        },
{
}

/// The handles and states of collected sessions, one by one.
pub proof fn law_collected_sessions_are_what_is_said(
    awaiting: Seq<(usize, ParticipantAwaitingSessionParameters)>,
)
    ensures
        awaiting_views(awaiting).len() == awaiting.len(),
        forall|i: int|
            0 <= i < awaiting.len() ==> (#[trigger] awaiting_views(awaiting)[i]).0 == awaiting[i].0
                && awaiting_views(awaiting)[i].1 == awaiting[i].1@,
{
}

/// A collection fails where the registry or a log fails, or with the first open log that cannot be
/// replayed, for its reason; never otherwise.
pub proof fn law_collection_fails_for_a_reason<R: MultipartySessionRegistry>(
    error: CollectAwaitingParametersError<R>,
    registry: R,
)
    requires
        collect_reports(error, registry),
        registry.reliable(),
        registry.persisters().len() <= usize::MAX,
    ensures
        error matches CollectAwaitingParametersError::Replay(cause) && exists|i: int|
            {
                &&& 0 <= i < registry.persisters().len()
                &&& !(#[trigger] registry.persisters()[i]).closed()
                &&& replayed(registry.persisters()[i].events()) is Invalid
                &&& reports(Err(cause), replayed(registry.persisters()[i].events()))
                &&& forall|j: int|
                    0 <= j < i && !(#[trigger] registry.persisters()[j]).closed() ==> !(replayed(
                        registry.persisters()[j].events(),
                    ) is Invalid)
            },
{
    law_every_awaiting_session_is_collected(registry.persisters(), registry.persisters().len());
}

/// Whether a registry can be replayed: every open log can, up to the first whose replay fails.
pub proof fn law_replayable_registry<P: SessionPersister<SessionEvent = MultipartySessionEvent>>(
    persisters: Seq<P>,
    n: nat,
)
    requires
        n <= persisters.len() <= usize::MAX,
    ensures
        replayable_so_far(persisters, n) <==> forall|i: int|
            0 <= i < n && !(#[trigger] persisters[i]).closed() && (forall|j: int|
                0 <= j < i && !(#[trigger] persisters[j]).closed() ==> !(replayed(
                    persisters[j].events(),
                ) is Invalid)) ==> replayable(persisters[i].events()),
    decreases n,
{
    if n > 0 {
        let m = (n - 1) as nat;
        law_replayable_registry(persisters, m);
        law_every_awaiting_session_is_collected(persisters, m);
    }
}

/// The message shown for a collection that failed ends with the message of the cause.
pub proof fn law_message_ends_with_the_cause<R: MultipartySessionRegistry>(
    e: CollectAwaitingParametersError<R>,
    cause: Seq<char>,
)
    ensures
        ends_with(e.spec_message(cause), cause),
{
    match e {
        CollectAwaitingParametersError::Registry(_) => lemma_ends_with("registry error: "@, cause),
        CollectAwaitingParametersError::Replay(_) => lemma_ends_with("replay error: "@, cause),
    }
}

} // verus!
