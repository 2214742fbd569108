//! The event log that responders keep for themselves: events, state, replay and history.
use vstd::prelude::*;

use crate::hpke::HpkePublicKey;
use crate::multiparty::responder::{Initialized, Responder, ResponderContext, SentReplyKey};
use crate::multiparty::role_log::{
    replay_role_log, replay_stopped, role_replayable, role_replayed, role_reports, RoleReplayed, RoleSession,
};
use crate::persist::{LogEvent, ReplayError, SessionPersister};

verus! {

/// Events recorded during a multiparty responder session.
#[derive(Debug, PartialEq, Eq)]
pub enum ResponderEvent {
    Created(ResponderContext),
    SentReplyKey(HpkePublicKey),
    Closed(ResponderOutcome),
}

/// Outcome of a closed responder session.
#[derive(Debug, Clone, Copy, PartialEq, Eq)]
pub enum ResponderOutcome {
    Failure,
}

/// Inferred status of a responder session from its event log.
#[derive(Debug, Clone, Copy, PartialEq, Eq, Structural)]
pub enum ResponderStatus {
    Active,
    Failed,
    SentReplyKey,
}

impl Clone for ResponderEvent {
    fn clone(&self) -> (r: Self)
        ensures
            r == *self,
    {
        match self {
            ResponderEvent::Created(context) => ResponderEvent::Created(context.clone()),
            ResponderEvent::SentReplyKey(key) => ResponderEvent::SentReplyKey(*key),
            ResponderEvent::Closed(outcome) => ResponderEvent::Closed(*outcome),
        }
    }
}

impl LogEvent for ResponderEvent {
    fn copy_event(&self) -> (r: Self) {
        self.clone()
    }
}

/// Type-erased responder session for replay and persistence.
#[derive(Debug, PartialEq, Eq)]
pub enum ResponderSession {
    Initialized(Responder<Initialized>),
    SentReplyKey(Responder<SentReplyKey>),
    Closed(ResponderOutcome),
}

/// What is known of a responder session.
pub enum ResponderSessionModel {
    Initialized(ResponderContext),
    SentReplyKey(ResponderContext),
    Closed(ResponderOutcome),
}

impl View for ResponderSession {
    type V = ResponderSessionModel;

    open spec fn view(&self) -> ResponderSessionModel {
        match self {
            ResponderSession::Initialized(s) => ResponderSessionModel::Initialized(s.context),
            ResponderSession::SentReplyKey(s) => ResponderSessionModel::SentReplyKey(s.context),
            ResponderSession::Closed(outcome) => ResponderSessionModel::Closed(*outcome),
        }
    }
}

impl RoleSession for ResponderSession {
    type Event = ResponderEvent;

    open spec fn starts(event: ResponderEvent) -> Option<ResponderSessionModel> {
        match event {
            ResponderEvent::Created(context) => Some(ResponderSessionModel::Initialized(context)),
            _ => None,
        }
    }

    open spec fn follows(session: ResponderSessionModel, event: ResponderEvent) -> Option<ResponderSessionModel> {
        match (session, event) {
            (_, ResponderEvent::Closed(outcome)) => Some(ResponderSessionModel::Closed(outcome)),
            (ResponderSessionModel::Initialized(context), ResponderEvent::SentReplyKey(key)) => Some(
                ResponderSessionModel::SentReplyKey(
                    ResponderContext { sent_reply_key: Some(key), ..context },
                ),
            ),
            _ => None,
        }
    }

    open spec fn meets(session: ResponderSessionModel, event: ResponderEvent) -> bool {
        true
    }

    fn from_first_event<F>(event: ResponderEvent) -> (r: Result<Self, ReplayError<Self, ResponderEvent, F>>) {
        match event {
            ResponderEvent::Created(context) => Ok(ResponderSession::new(context)),
            event => Err(ReplayError::InvalidEvent(event, None)),
        }
    }

    fn meets_event(&self, event: &ResponderEvent) -> (r: bool) {
        true
    }

    fn process_event<F>(self, event: ResponderEvent) -> (r: Result<
        Self,
        ReplayError<Self, ResponderEvent, F>,
    >) {
        match (self, event) {
            (ResponderSession::Initialized(state), ResponderEvent::SentReplyKey(key)) => {
                let context = ResponderContext { sent_reply_key: Some(key), ..state.context };
                Ok(ResponderSession::SentReplyKey(Responder { state: SentReplyKey {  }, context }))
            },
            (_, ResponderEvent::Closed(outcome)) => Ok(ResponderSession::Closed(outcome)),
            (current_state, event) => Err(ReplayError::InvalidEvent(event, Some(current_state))),
        }
    }
}

impl ResponderSession {
    /// The session of a new responder.
    pub fn new(context: ResponderContext) -> (r: Self)
        ensures
            r@ == ResponderSessionModel::Initialized(context),
    {
        ResponderSession::Initialized(Responder { state: Initialized {  }, context })
    }
}

/// The key that the first event about one gives, if there is one.
pub open spec fn first_reply_key(events: Seq<ResponderEvent>) -> Option<HpkePublicKey>
    decreases events.len(),
{
    if events.len() == 0 {
        None
    } else {
        match events[0] {
            ResponderEvent::SentReplyKey(key) => Some(key),
            _ => first_reply_key(events.skip(1)),
        }
    }
}

/// The context that the first event about one gives, if there is one.
pub open spec fn first_context(events: Seq<ResponderEvent>) -> Option<ResponderContext>
    decreases events.len(),
{
    if events.len() == 0 {
        None
    } else {
        match events[0] {
            ResponderEvent::Created(context) => Some(context),
            _ => first_context(events.skip(1)),
        }
    }
}

/// The status that the last event of a log stands for.
pub open spec fn status_of(events: Seq<ResponderEvent>) -> ResponderStatus {
    if events.len() == 0 {
        ResponderStatus::Active
    } else {
        match events.last() {
            ResponderEvent::Closed(ResponderOutcome::Failure) => ResponderStatus::Failed,
            ResponderEvent::SentReplyKey(_) => ResponderStatus::SentReplyKey,
            ResponderEvent::Created(_) => ResponderStatus::Active,
        }
    }
}

/// A collection of events from a responder session, from [`replay_event_log`].
#[derive(Debug, PartialEq, Eq)]
pub struct ResponderHistory {
    events: Vec<ResponderEvent>,
}

impl ResponderHistory {
    /// The events.
    pub closed spec fn spec_events(self) -> Seq<ResponderEvent> {
        self.events@
    }

    pub(crate) fn new(events: Vec<ResponderEvent>) -> (r: Self)
        requires
            events@.len() > 0,
        ensures
            r.spec_events() == events@,
    {
        Self { events }
    }

    /// Reply public key written to the initiator mailbox, if the responder has sent one.
    pub fn reply_key(&self) -> (r: Option<HpkePublicKey>)
        ensures
            r == first_reply_key(self.spec_events()),
    {
        let n: usize = self.events.len();
        let mut i: usize = 0;
        assert(self.events@.skip(0) =~= self.events@);
        while i < n
            invariant
                i <= n,
                n == self.events@.len(),
                first_reply_key(self.events@) == first_reply_key(self.events@.skip(i as int)),
            decreases n - i,
        {
            if let ResponderEvent::SentReplyKey(key) = &self.events[i] {
                return Some(*key);
            }
            assert(self.events@.skip(i as int).skip(1) =~= self.events@.skip(i + 1));
            i += 1;
        }
        None
    }

    /// The context of the session, with the reply key where there is one.
    pub fn session_context(&self) -> (r: ResponderContext)
        requires
            first_context(self.spec_events()) is Some,
        ensures
            r == (ResponderContext {
                sent_reply_key: first_reply_key(self.spec_events()),
                ..first_context(self.spec_events())->0
            }),
    {
        let n: usize = self.events.len();
        let mut i: usize = 0;
        assert(self.events@.skip(0) =~= self.events@);
        while i < n
            invariant
                i <= n,
                n == self.events@.len(),
                first_context(self.events@) is Some,
                first_context(self.events@) == first_context(self.events@.skip(i as int)),
            decreases n - i,
        {
            if let ResponderEvent::Created(context) = &self.events[i] {
                let context = context.clone();
                return ResponderContext { sent_reply_key: self.reply_key(), ..context };
            }
            assert(self.events@.skip(i as int).skip(1) =~= self.events@.skip(i + 1));
            i += 1;
        }
        vstd::pervasive::unreached()
    }

    /// Inferred status of the session.
    pub fn status(&self) -> (r: ResponderStatus)
        ensures
            r == status_of(self.spec_events()),
    {
        let n: usize = self.events.len();
        if n == 0 {
            return ResponderStatus::Active;
        }
        match &self.events[n - 1] {
            ResponderEvent::Closed(ResponderOutcome::Failure) => ResponderStatus::Failed,
            ResponderEvent::SentReplyKey(_) => ResponderStatus::SentReplyKey,
            ResponderEvent::Created(_) => ResponderStatus::Active,
        }
    }
}

/// Replay a responder event log to get the responder in its current state and history. A log that
/// cannot be replayed is closed, unless it could not even be read.
pub fn replay_event_log<P: SessionPersister<SessionEvent = ResponderEvent>>(persister: &mut P) -> (r:
    Result<
        (ResponderSession, ResponderHistory),
        ReplayError<ResponderSession, ResponderEvent, P::InternalStorageError>,
    >)
    ensures
        final(persister).events() == old(persister).events(),
        final(persister).reliable() == old(persister).reliable(),
        match r {
            Ok((session, history)) => {
                &&& role_replayed::<ResponderSession>(old(persister).events()) == RoleReplayed::<
                    ResponderSessionModel,
                    ResponderEvent,
                >::Session(session@)
                &&& history.spec_events() == old(persister).events()
                &&& *final(persister) == *old(persister)
            },
            Err(ReplayError::PersistenceFailure(e)) => {
                &&& !old(persister).reliable()
                &&& final(persister).closed() == old(persister).closed()
                &&& replay_stopped::<ResponderSession, P>(old(persister).events(), e)
            },
            Err(e) => role_reports::<ResponderSession, _>(
                Err(e),
                role_replayed::<ResponderSession>(old(persister).events()),
            ) && final(persister).closed(),
        },
{
    proof {
        lemma_every_log_is_replayable(persister.events());
    }
    match replay_role_log::<ResponderSession, P>(persister) {
        Ok((session, events)) => {
            assert(events@.len() > 0) by {
                if events@.len() == 0 {
                    assert(role_replayed::<ResponderSession>(events@) is NoEvents);
                }
            }
            Ok((session, ResponderHistory::new(events)))
        },
        Err(e) => Err(e),
    }
}

/// Every log can be replayed: there is no event that cannot be met.
proof fn lemma_every_log_is_replayable(events: Seq<ResponderEvent>)
    ensures
        role_replayable::<ResponderSession>(events),
    decreases events.len(),
{
    if events.len() > 1 {
        lemma_every_log_is_replayable(events.drop_last());
    }
}

/// The history of a session tells what its state holds: the key that the session has is the one
/// that the history tells of, and the status is that of the state.
pub proof fn law_history_tells_the_state(events: Seq<ResponderEvent>)
    requires
        role_replayed::<ResponderSession>(events) is Session,
    ensures
        match role_replayed::<ResponderSession>(events)->Session_0 {
            ResponderSessionModel::Initialized(_) => first_reply_key(events) is None && status_of(events)
                == ResponderStatus::Active,
            ResponderSessionModel::SentReplyKey(context) => context.sent_reply_key == first_reply_key(events)
                && first_reply_key(events) is Some && status_of(events) == ResponderStatus::SentReplyKey,
            ResponderSessionModel::Closed(_) => status_of(events) == ResponderStatus::Failed,
        },
    decreases events.len(),
{
    if events.len() == 1 {
        assert(events.skip(1) =~= Seq::empty());
        assert(first_reply_key(Seq::<ResponderEvent>::empty()) is None);
    } else if events.len() > 1 {
        law_history_tells_the_state(events.drop_last());
        lemma_first_reply_key_push(events.drop_last(), events.last());
        assert(events.drop_last().push(events.last()) =~= events);
    }
}

/// The first key of a longer log.
proof fn lemma_first_reply_key_push(events: Seq<ResponderEvent>, event: ResponderEvent)
    ensures
        first_reply_key(events.push(event)) == (match first_reply_key(events) {
            Some(key) => Some(key),
            None => match event {
                ResponderEvent::SentReplyKey(key) => Some(key),
                _ => None,
            },
        }),
    decreases events.len(),
{
    if events.len() > 0 {
        assert(events.push(event).skip(1) =~= events.skip(1).push(event));
        lemma_first_reply_key_push(events.skip(1), event);
    } else {
        assert(events =~= Seq::empty());
        assert(events.push(event).skip(1) =~= Seq::empty());
        assert(first_reply_key(Seq::<ResponderEvent>::empty()) is None);
    }
}

/// The session of a responder starts with its creation and nothing else; goes on with a reply key once; and
/// ends whenever it is closed. A reply key changes nothing but the key that is noted.
pub proof fn law_responder_log(session: ResponderSessionModel, event: ResponderEvent)
    ensures
        match event {
            ResponderEvent::Created(context) => ResponderSession::starts(event) == Some(
                ResponderSessionModel::Initialized(context),
            ) && ResponderSession::follows(session, event) is None,
            ResponderEvent::SentReplyKey(key) => ResponderSession::starts(event) is None && (
            match ResponderSession::follows(session, event) {
                Some(next) => {
                    &&& session matches ResponderSessionModel::Initialized(before)
                    &&& next matches ResponderSessionModel::SentReplyKey(after)
                    &&& after.sent_reply_key == Some(key)
                    &&& after == (ResponderContext { sent_reply_key: after.sent_reply_key, ..before })
                },
                None => !(session is Initialized),
            }),
            ResponderEvent::Closed(outcome) => ResponderSession::starts(event) is None
                && ResponderSession::follows(session, event) == Some(
                ResponderSessionModel::Closed(outcome),
            ),
        },
        ResponderSession::meets(session, event),
{
}

/// What a history tells is what its first event of the kind says: the context of the creation, and the
/// reply key.
pub proof fn law_history_tells_the_first(events: Seq<ResponderEvent>)
    ensures
        match first_context(events) {
            Some(context) => exists|i: int|
                0 <= i < events.len() && #[trigger] events[i] == ResponderEvent::Created(context)
                    && forall|j: int| 0 <= j < i ==> !(#[trigger] events[j] is Created),
            None => forall|j: int| 0 <= j < events.len() ==> !(#[trigger] events[j] is Created),
        },
        match first_reply_key(events) {
            Some(key) => exists|i: int|
                0 <= i < events.len() && #[trigger] events[i] == ResponderEvent::SentReplyKey(key)
                    && forall|j: int| 0 <= j < i ==> !(#[trigger] events[j] is SentReplyKey),
            None => forall|j: int|
                0 <= j < events.len() ==> !(#[trigger] events[j] is SentReplyKey),
        },
    decreases events.len(),
{
    if events.len() > 0 {
        let rest = events.skip(1);
        law_history_tells_the_first(rest);
        if events[0] is Created {
            assert(first_context(events) == Some(events[0]->Created_0));
        } else if first_context(rest) is Some {
            let context = first_context(rest)->0;
            let i = choose|i: int|
                0 <= i < rest.len() && #[trigger] rest[i] == ResponderEvent::Created(context)
                    && forall|j: int| 0 <= j < i ==> !(#[trigger] rest[j] is Created);
            assert(events[i + 1] == rest[i]);
            assert forall|j: int| 0 <= j < i + 1 implies !(#[trigger] events[j] is Created) by {
                if j > 0 {
                    assert(rest[j - 1] == events[j]);
                }
            }
        } else {
            assert forall|j: int| 0 <= j < events.len() implies !(#[trigger] events[j] is Created) by {
                if j > 0 {
                    assert(rest[j - 1] == events[j]);
                }
            }
        }
        if events[0] is SentReplyKey {
            assert(first_reply_key(events) == Some(events[0]->SentReplyKey_0));
        } else if first_reply_key(rest) is Some {
            let key = first_reply_key(rest)->0;
            let i = choose|i: int|
                0 <= i < rest.len() && #[trigger] rest[i] == ResponderEvent::SentReplyKey(key)
                    && forall|j: int| 0 <= j < i ==> !(#[trigger] rest[j] is SentReplyKey);
            assert(events[i + 1] == rest[i]);
            assert forall|j: int| 0 <= j < i + 1 implies !(#[trigger] events[j] is SentReplyKey) by {
                if j > 0 {
                    assert(rest[j - 1] == events[j]);
                }
            }
        } else {
            assert forall|j: int| 0 <= j < events.len() implies !(
            #[trigger] events[j] is SentReplyKey) by {
                if j > 0 {
                    assert(rest[j - 1] == events[j]);
                }
            }
        }
    }
}

/// What is said of a session is its state and what the state holds.
pub proof fn law_session_is_what_is_said(session: ResponderSession)
    ensures
        match session {
            ResponderSession::Initialized(s) => session@ matches ResponderSessionModel::Initialized(c)
                && c == s.context,
            ResponderSession::SentReplyKey(s) => session@ matches ResponderSessionModel::SentReplyKey(c)
                && c == s.context,
            ResponderSession::Closed(o) => session@ matches ResponderSessionModel::Closed(p) && p == o,
        },
{
}

} // verus!
