//! The event log that initiators keep for themselves: events, state, replay and history.
use vstd::prelude::*;

use crate::hpke::HpkePublicKey;
use crate::multiparty::initiator::{HasReplyKey, Initialized, Initiator, InitiatorContext};
use crate::multiparty::role_log::{
    replay_role_log, replay_stopped, role_replayable, role_replayed, role_reports, RoleReplayed, RoleSession,
};
use crate::persist::{LogEvent, ReplayError, SessionPersister};

verus! {

/// Events recorded during a multiparty initiator session.
#[derive(Debug, PartialEq, Eq)]
pub enum InitiatorEvent {
    Created(InitiatorContext),
    RetrievedReplyKey(HpkePublicKey),
    Closed(InitiatorOutcome),
}

/// Outcome of a closed initiator session.
#[derive(Debug, Clone, Copy, PartialEq, Eq)]
pub enum InitiatorOutcome {
    Failure,
}

/// Inferred status of an initiator session from its event log.
#[derive(Debug, Clone, Copy, PartialEq, Eq, Structural)]
pub enum InitiatorStatus {
    Active,
    Failed,
    HasReplyKey,
}

impl Clone for InitiatorEvent {
    fn clone(&self) -> (r: Self)
        ensures
            r == *self,
    {
        match self {
            InitiatorEvent::Created(context) => InitiatorEvent::Created(context.clone()),
            InitiatorEvent::RetrievedReplyKey(key) => InitiatorEvent::RetrievedReplyKey(*key),
            InitiatorEvent::Closed(outcome) => InitiatorEvent::Closed(*outcome),
        }
    }
}

impl LogEvent for InitiatorEvent {
    fn copy_event(&self) -> (r: Self) {
        self.clone()
    }
}

/// Type-erased initiator session for replay and persistence.
#[derive(Debug, PartialEq, Eq)]
pub enum InitiatorSession {
    Initialized(Initiator<Initialized>),
    HasReplyKey(Initiator<HasReplyKey>),
    Closed(InitiatorOutcome),
}

/// What is known of an initiator session.
pub enum InitiatorSessionModel {
    Initialized(InitiatorContext),
    HasReplyKey(InitiatorContext),
    Closed(InitiatorOutcome),
}

impl View for InitiatorSession {
    type V = InitiatorSessionModel;

    open spec fn view(&self) -> InitiatorSessionModel {
        match self {
            InitiatorSession::Initialized(s) => InitiatorSessionModel::Initialized(s.context),
            InitiatorSession::HasReplyKey(s) => InitiatorSessionModel::HasReplyKey(s.context),
            InitiatorSession::Closed(outcome) => InitiatorSessionModel::Closed(*outcome),
        }
    }
}

impl RoleSession for InitiatorSession {
    type Event = InitiatorEvent;

    open spec fn starts(event: InitiatorEvent) -> Option<InitiatorSessionModel> {
        match event {
            InitiatorEvent::Created(context) => Some(InitiatorSessionModel::Initialized(context)),
            _ => None,
        }
    }

    open spec fn follows(session: InitiatorSessionModel, event: InitiatorEvent) -> Option<InitiatorSessionModel> {
        match (session, event) {
            (_, InitiatorEvent::Closed(outcome)) => Some(InitiatorSessionModel::Closed(outcome)),
            (InitiatorSessionModel::Initialized(context), InitiatorEvent::RetrievedReplyKey(key)) => Some(
                InitiatorSessionModel::HasReplyKey(
                    InitiatorContext { responder_public_key: Some(key), ..context },
                ),
            ),
            _ => None,
        }
    }

    open spec fn meets(session: InitiatorSessionModel, event: InitiatorEvent) -> bool {
        true
    }

    fn from_first_event<F>(event: InitiatorEvent) -> (r: Result<Self, ReplayError<Self, InitiatorEvent, F>>) {
        match event {
            InitiatorEvent::Created(context) => Ok(InitiatorSession::new(context)),
            event => Err(ReplayError::InvalidEvent(event, None)),
        }
    }

    fn meets_event(&self, event: &InitiatorEvent) -> (r: bool) {
        true
    }

    fn process_event<F>(self, event: InitiatorEvent) -> (r: Result<
        Self,
        ReplayError<Self, InitiatorEvent, F>,
    >) {
        match (self, event) {
            (InitiatorSession::Initialized(state), InitiatorEvent::RetrievedReplyKey(key)) => {
                let context = InitiatorContext { responder_public_key: Some(key), ..state.context };
                Ok(InitiatorSession::HasReplyKey(Initiator { state: HasReplyKey {  }, context }))
            },
            (_, InitiatorEvent::Closed(outcome)) => Ok(InitiatorSession::Closed(outcome)),
            (current_state, event) => Err(ReplayError::InvalidEvent(event, Some(current_state))),
        }
    }
}

impl InitiatorSession {
    /// The session of a new initiator.
    pub fn new(context: InitiatorContext) -> (r: Self)
        ensures
            r@ == InitiatorSessionModel::Initialized(context),
    {
        InitiatorSession::Initialized(Initiator { state: Initialized {  }, context })
    }
}

/// The key that the first event about one gives, if there is one.
pub open spec fn first_reply_key(events: Seq<InitiatorEvent>) -> Option<HpkePublicKey>
    decreases events.len(),
{
    if events.len() == 0 {
        None
    } else {
        match events[0] {
            InitiatorEvent::RetrievedReplyKey(key) => Some(key),
            _ => first_reply_key(events.skip(1)),
        }
    }
}

/// The context that the first event about one gives, if there is one.
pub open spec fn first_context(events: Seq<InitiatorEvent>) -> Option<InitiatorContext>
    decreases events.len(),
{
    if events.len() == 0 {
        None
    } else {
        match events[0] {
            InitiatorEvent::Created(context) => Some(context),
            _ => first_context(events.skip(1)),
        }
    }
}

/// The status that the last event of a log stands for.
pub open spec fn status_of(events: Seq<InitiatorEvent>) -> InitiatorStatus {
    if events.len() == 0 {
        InitiatorStatus::Active
    } else {
        match events.last() {
            InitiatorEvent::Closed(InitiatorOutcome::Failure) => InitiatorStatus::Failed,
            InitiatorEvent::RetrievedReplyKey(_) => InitiatorStatus::HasReplyKey,
            InitiatorEvent::Created(_) => InitiatorStatus::Active,
        }
    }
}

/// A collection of events from an initiator session, from [`replay_event_log`].
#[derive(Debug, PartialEq, Eq)]
pub struct InitiatorHistory {
    events: Vec<InitiatorEvent>,
}

impl InitiatorHistory {
    /// The events.
    pub closed spec fn spec_events(self) -> Seq<InitiatorEvent> {
        self.events@
    }

    pub(crate) fn new(events: Vec<InitiatorEvent>) -> (r: Self)
        requires
            events@.len() > 0,
        ensures
            r.spec_events() == events@,
    {
        Self { events }
    }

    /// Reply key from the session, if the initiator has received one.
    pub fn reply_key(&self) -> (r: Option<HpkePublicKey>)
        ensures
            r == first_reply_key(self.spec_events()),
    {
        let n: usize = self.events.len();
        let mut i: usize = 0;
        assert(self.events@.skip(0) =~= self.events@);
        while i < n
            invariant
                i <= n,
                n == self.events@.len(),
                first_reply_key(self.events@) == first_reply_key(self.events@.skip(i as int)),
            decreases n - i,
        {
            if let InitiatorEvent::RetrievedReplyKey(key) = &self.events[i] {
                return Some(*key);
            }
            assert(self.events@.skip(i as int).skip(1) =~= self.events@.skip(i + 1));
            i += 1;
        }
        None
    }

    /// The context of the session, with the reply key where there is one.
    pub fn session_context(&self) -> (r: InitiatorContext)
        requires
            first_context(self.spec_events()) is Some,
        ensures
            r == (InitiatorContext {
                responder_public_key: first_reply_key(self.spec_events()),
                ..first_context(self.spec_events())->0
            }),
    {
        let n: usize = self.events.len();
        let mut i: usize = 0;
        assert(self.events@.skip(0) =~= self.events@);
        while i < n
            invariant
                i <= n,
                n == self.events@.len(),
                first_context(self.events@) is Some,
                first_context(self.events@) == first_context(self.events@.skip(i as int)),
            decreases n - i,
        {
            if let InitiatorEvent::Created(context) = &self.events[i] {
                let context = context.clone();
                return InitiatorContext { responder_public_key: self.reply_key(), ..context };
            }
            assert(self.events@.skip(i as int).skip(1) =~= self.events@.skip(i + 1));
            i += 1;
        }
        vstd::pervasive::unreached()
    }

    /// Inferred status of the session.
    pub fn status(&self) -> (r: InitiatorStatus)
        ensures
            r == status_of(self.spec_events()),
    {
        let n: usize = self.events.len();
        if n == 0 {
            return InitiatorStatus::Active;
        }
        match &self.events[n - 1] {
            InitiatorEvent::Closed(InitiatorOutcome::Failure) => InitiatorStatus::Failed,
            InitiatorEvent::RetrievedReplyKey(_) => InitiatorStatus::HasReplyKey,
            InitiatorEvent::Created(_) => InitiatorStatus::Active,
        }
    }
}

/// Replay an initiator event log to get the initiator in its current state and history. A log that
/// cannot be replayed is closed, unless it could not even be read.
pub fn replay_event_log<P: SessionPersister<SessionEvent = InitiatorEvent>>(persister: &mut P) -> (r:
    Result<
        (InitiatorSession, InitiatorHistory),
        ReplayError<InitiatorSession, InitiatorEvent, P::InternalStorageError>,
    >)
    ensures
        final(persister).events() == old(persister).events(),
        final(persister).reliable() == old(persister).reliable(),
        match r {
            Ok((session, history)) => {
                &&& role_replayed::<InitiatorSession>(old(persister).events()) == RoleReplayed::<
                    InitiatorSessionModel,
                    InitiatorEvent,
                >::Session(session@)
                &&& history.spec_events() == old(persister).events()
                &&& *final(persister) == *old(persister)
            },
            Err(ReplayError::PersistenceFailure(e)) => {
                &&& !old(persister).reliable()
                &&& final(persister).closed() == old(persister).closed()
                &&& replay_stopped::<InitiatorSession, P>(old(persister).events(), e)
            },
            Err(e) => role_reports::<InitiatorSession, _>(
                Err(e),
                role_replayed::<InitiatorSession>(old(persister).events()),
            ) && final(persister).closed(),
        },
{
    proof {
        lemma_every_log_is_replayable(persister.events());
    }
    match replay_role_log::<InitiatorSession, P>(persister) {
        Ok((session, events)) => {
            assert(events@.len() > 0) by {
                if events@.len() == 0 {
                    assert(role_replayed::<InitiatorSession>(events@) is NoEvents);
                }
            }
            Ok((session, InitiatorHistory::new(events)))
        },
        Err(e) => Err(e),
    }
}

/// Every log can be replayed: there is no event that cannot be met.
proof fn lemma_every_log_is_replayable(events: Seq<InitiatorEvent>)
    ensures
        role_replayable::<InitiatorSession>(events),
    decreases events.len(),
{
    if events.len() > 1 {
        lemma_every_log_is_replayable(events.drop_last());
    }
}

/// The history of a session tells what its state holds: the key that the session has is the one
/// that the history tells of, and the status is that of the state.
pub proof fn law_history_tells_the_state(events: Seq<InitiatorEvent>)
    requires
        role_replayed::<InitiatorSession>(events) is Session,
    ensures
        match role_replayed::<InitiatorSession>(events)->Session_0 {
            InitiatorSessionModel::Initialized(_) => first_reply_key(events) is None && status_of(events)
                == InitiatorStatus::Active,
            InitiatorSessionModel::HasReplyKey(context) => context.responder_public_key == first_reply_key(events)
                && first_reply_key(events) is Some && status_of(events) == InitiatorStatus::HasReplyKey,
            InitiatorSessionModel::Closed(_) => status_of(events) == InitiatorStatus::Failed,
        },
    decreases events.len(),
{
    if events.len() == 1 {
        assert(events.skip(1) =~= Seq::empty());
        assert(first_reply_key(Seq::<InitiatorEvent>::empty()) is None);
    } else if events.len() > 1 {
        law_history_tells_the_state(events.drop_last());
        lemma_first_reply_key_push(events.drop_last(), events.last());
        assert(events.drop_last().push(events.last()) =~= events);
    }
}

/// The first key of a longer log.
proof fn lemma_first_reply_key_push(events: Seq<InitiatorEvent>, event: InitiatorEvent)
    ensures
        first_reply_key(events.push(event)) == (match first_reply_key(events) {
            Some(key) => Some(key),
            None => match event {
                InitiatorEvent::RetrievedReplyKey(key) => Some(key),
                _ => None,
            },
        }),
    decreases events.len(),
{
    if events.len() > 0 {
        assert(events.push(event).skip(1) =~= events.skip(1).push(event));
        lemma_first_reply_key_push(events.skip(1), event);
    } else {
        assert(events =~= Seq::empty());
        assert(events.push(event).skip(1) =~= Seq::empty());
        assert(first_reply_key(Seq::<InitiatorEvent>::empty()) is None);
    }
}

/// The session of an initiator starts with its creation and nothing else; goes on with a reply key once; and
/// ends whenever it is closed. A reply key changes nothing but the key that is noted.
pub proof fn law_initiator_log(session: InitiatorSessionModel, event: InitiatorEvent)
    ensures
        match event {
            InitiatorEvent::Created(context) => InitiatorSession::starts(event) == Some(
                InitiatorSessionModel::Initialized(context),
            ) && InitiatorSession::follows(session, event) is None,
            InitiatorEvent::RetrievedReplyKey(key) => InitiatorSession::starts(event) is None && (
            match InitiatorSession::follows(session, event) {
                Some(next) => {
                    &&& session matches InitiatorSessionModel::Initialized(before)
                    &&& next matches InitiatorSessionModel::HasReplyKey(after)
                    &&& after.responder_public_key == Some(key)
                    &&& after == (InitiatorContext { responder_public_key: after.responder_public_key, ..before })
                },
                None => !(session is Initialized),
            }),
            InitiatorEvent::Closed(outcome) => InitiatorSession::starts(event) is None
                && InitiatorSession::follows(session, event) == Some(
                InitiatorSessionModel::Closed(outcome),
            ),
        },
        InitiatorSession::meets(session, event),
{
}

/// What a history tells is what its first event of the kind says: the context of the creation, and the
/// reply key.
pub proof fn law_history_tells_the_first(events: Seq<InitiatorEvent>)
    ensures
        match first_context(events) {
            Some(context) => exists|i: int|
                0 <= i < events.len() && #[trigger] events[i] == InitiatorEvent::Created(context)
                    && forall|j: int| 0 <= j < i ==> !(#[trigger] events[j] is Created),
            None => forall|j: int| 0 <= j < events.len() ==> !(#[trigger] events[j] is Created),
        },
        match first_reply_key(events) {
            Some(key) => exists|i: int|
                0 <= i < events.len() && #[trigger] events[i] == InitiatorEvent::RetrievedReplyKey(key)
                    && forall|j: int| 0 <= j < i ==> !(#[trigger] events[j] is RetrievedReplyKey),
            None => forall|j: int|
                0 <= j < events.len() ==> !(#[trigger] events[j] is RetrievedReplyKey),
        },
    decreases events.len(),
{
    if events.len() > 0 {
        let rest = events.skip(1);
        law_history_tells_the_first(rest);
        if events[0] is Created {
            assert(first_context(events) == Some(events[0]->Created_0));
        } else if first_context(rest) is Some {
            let context = first_context(rest)->0;
            let i = choose|i: int|
                0 <= i < rest.len() && #[trigger] rest[i] == InitiatorEvent::Created(context)
                    && forall|j: int| 0 <= j < i ==> !(#[trigger] rest[j] is Created);
            assert(events[i + 1] == rest[i]);
            assert forall|j: int| 0 <= j < i + 1 implies !(#[trigger] events[j] is Created) by {
                if j > 0 {
                    assert(rest[j - 1] == events[j]);
                }
            }
        } else {
            assert forall|j: int| 0 <= j < events.len() implies !(#[trigger] events[j] is Created) by {
                if j > 0 {
                    assert(rest[j - 1] == events[j]);
                }
            }
        }
        if events[0] is RetrievedReplyKey {
            assert(first_reply_key(events) == Some(events[0]->RetrievedReplyKey_0));
        } else if first_reply_key(rest) is Some {
            let key = first_reply_key(rest)->0;
            let i = choose|i: int|
                0 <= i < rest.len() && #[trigger] rest[i] == InitiatorEvent::RetrievedReplyKey(key)
                    && forall|j: int| 0 <= j < i ==> !(#[trigger] rest[j] is RetrievedReplyKey);
            assert(events[i + 1] == rest[i]);
            assert forall|j: int| 0 <= j < i + 1 implies !(#[trigger] events[j] is RetrievedReplyKey) by {
                if j > 0 {
                    assert(rest[j - 1] == events[j]);
                }
            }
        } else {
            assert forall|j: int| 0 <= j < events.len() implies !(
            #[trigger] events[j] is RetrievedReplyKey) by {
                if j > 0 {
                    assert(rest[j - 1] == events[j]);
                }
            }
        }
    }
}

/// What is said of a session is its state and what the state holds.
pub proof fn law_session_is_what_is_said(session: InitiatorSession)
    ensures
        match session {
            InitiatorSession::Initialized(s) => session@ matches InitiatorSessionModel::Initialized(c)
                && c == s.context,
            InitiatorSession::HasReplyKey(s) => session@ matches InitiatorSessionModel::HasReplyKey(c)
                && c == s.context,
            InitiatorSession::Closed(o) => session@ matches InitiatorSessionModel::Closed(p) && p == o,
        },
{
}

} // verus!
