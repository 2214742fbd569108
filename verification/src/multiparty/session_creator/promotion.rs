//! Promoting open sessions that await session parameters to one session creator.
use std::sync::Arc;

use vstd::prelude::*;
use vstd::std_specs::convert::FromSpecImpl;

use crate::hpke::{HpkeKeyPair, HpkePublicKey};
use crate::multiparty::participant::awaiting::{
    AwaitingModel, ParticipantAwaitingSessionParameters,
};
use crate::multiparty::persist::{
    GraduationError, MultipartyGraduationTransition, MultipartySessionRegistry,
};
use crate::multiparty::session::{
    all_replayable, awaiting_sessions, awaiting_views, collect_reports,
    collect_open_sessions_awaiting_parameters_with_persisters, start,
    CollectAwaitingParametersError, MultipartySession, MultipartySessionEvent,
    MultipartySessionOutcome,
};
use crate::multiparty::session_creator::error::InternalSessionCreatorSessionError;
use crate::multiparty::session_creator::{
    all_delivered, delivered_to, is_next_undelivered, law_serving_the_next_ends_in_distribution,
    lemma_position_is, CollectedSessions, PendingParticipant, SessionCreator, SessionCreatorContext,
};
use crate::multiparty::session_parameters::SessionParameters;
use crate::ohttp::OhttpEncapsulationError;
use crate::persist::{NextStateTransition, SessionPersister};
use crate::text::{concat, ends_with, lemma_ends_with};
use crate::url::UrlParseError;

verus! {

/// Errors from creating distribution requests before a directory response is processed.
#[derive(Debug, Clone, Copy, PartialEq, Eq)]
pub enum SessionCreatorError {
    ParseUrl(UrlParseError),
    OhttpEncapsulation(OhttpEncapsulationError),
    NoPendingParticipants,
    /// Collected participants use different Payjoin Directory URLs.
    InconsistentDirectory,
    /// Two or more participants share the same mailbox public key.
    DuplicateParticipant,
}

impl SessionCreatorError {
    /// The message shown for this error.
    pub open spec fn spec_message(self) -> Seq<char> {
        match self {
            SessionCreatorError::ParseUrl(e) => "cannot parse url: "@ + e.spec_message(),
            SessionCreatorError::OhttpEncapsulation(e) => "ohttp encapsulation error: "@
                + e.spec_message(),
            SessionCreatorError::NoPendingParticipants =>
                "no participants to distribute session parameters to"@,
            SessionCreatorError::InconsistentDirectory =>
                "participants do not share the same directory URL"@,
            SessionCreatorError::DuplicateParticipant =>
                "duplicate participant mailbox public key"@,
        }
    }

    /// The message shown for this error.
    pub fn message(&self) -> (r: String)
        ensures
            r@ == self.spec_message(),
    {
        match self {
            Self::ParseUrl(e) => concat("cannot parse url: ", &e.message()),
            Self::OhttpEncapsulation(e) => concat("ohttp encapsulation error: ", &e.message()),
            Self::NoPendingParticipants => "no participants to distribute session parameters to".to_owned(),
            Self::InconsistentDirectory => "participants do not share the same directory URL".to_owned(),
            Self::DuplicateParticipant => "duplicate participant mailbox public key".to_owned(),
        }
    }

    /// The error of a distribution request. Session parameters always fit in a message A, so that
    /// only the URL or the encapsulation can be at fault.
    pub(crate) fn from_session(err: InternalSessionCreatorSessionError) -> (r: Self)
        requires
            err is ParseUrl || err is OhttpEncapsulation,
        ensures
            match err {
                InternalSessionCreatorSessionError::ParseUrl(e) => r
                    == SessionCreatorError::ParseUrl(e),
                InternalSessionCreatorSessionError::OhttpEncapsulation(e) => r
                    == SessionCreatorError::OhttpEncapsulation(e),
                _ => false,
            },
    {
        match err {
            InternalSessionCreatorSessionError::ParseUrl(e) => Self::ParseUrl(e),
            InternalSessionCreatorSessionError::OhttpEncapsulation(e) => Self::OhttpEncapsulation(
                e,
            ),
            _ => vstd::pervasive::unreached(),
        }
    }
}

/// Errors from [`SessionCreatorBuilder::build_and_promote`] and
/// [`MultipartyGraduationTransition::save`].
pub enum SessionCreatorPromoteError<R: MultipartySessionRegistry> {
    Collect(CollectAwaitingParametersError<R>),
    Build(SessionCreatorError),
    Graduation(GraduationError<R::Error, <R::Persister as SessionPersister>::InternalStorageError>),
}

impl<R: MultipartySessionRegistry> SessionCreatorPromoteError<R> {
    /// The message shown for this error, with the message of its cause.
    pub open spec fn spec_message(self, cause: Seq<char>) -> Seq<char> {
        match self {
            SessionCreatorPromoteError::Collect(_) => "collect awaiting sessions: "@ + cause,
            SessionCreatorPromoteError::Build(_) => "session creator build: "@ + cause,
            SessionCreatorPromoteError::Graduation(_) => "session creator promotion: "@ + cause,
        }
    }

    /// The message shown for this error, with the message of its cause.
    pub fn message(&self, cause: &str) -> (r: String)
        ensures
            r@ == self.spec_message(cause@),
    {
        match self {
            Self::Collect(_) => concat("collect awaiting sessions: ", cause),
            Self::Build(_) => concat("session creator build: ", cause),
            Self::Graduation(_) => concat("session creator promotion: ", cause),
        }
    }
}

/// The keys of the participants that a session creator is built from: they share one directory,
/// and no two share a key. Where the first ones cannot be taken together, the error says why.
pub open spec fn committed(awaiting: Seq<AwaitingModel>) -> Result<
    Seq<HpkePublicKey>,
    SessionCreatorError,
>
    decreases awaiting.len(),
{
    if awaiting.len() == 0 {
        Err(SessionCreatorError::NoPendingParticipants)
    } else if awaiting.len() == 1 {
        Ok(seq![awaiting[0].parameters_mailbox_public_key])
    } else {
        match committed(awaiting.drop_last()) {
            Err(e) => Err(e),
            Ok(keys) => if awaiting.last().directory != awaiting[0].directory {
                Err(SessionCreatorError::InconsistentDirectory)
            } else if keys.contains(awaiting.last().parameters_mailbox_public_key) {
                Err(SessionCreatorError::DuplicateParticipant)
            } else {
                Ok(keys.push(awaiting.last().parameters_mailbox_public_key))
            },
        }
    }
}

/// Participants that have not acknowledged delivery.
pub open spec fn pending(keys: Seq<HpkePublicKey>) -> Seq<PendingParticipant> {
    keys.map_values(
        |public_key: HpkePublicKey| PendingParticipant { public_key, parameters_delivered: false },
    )
}

/// The handles of some sessions.
pub open spec fn handles_of(awaiting: Seq<(usize, AwaitingModel)>) -> Seq<usize> {
    awaiting.map_values(|entry: (usize, AwaitingModel)| entry.0)
}

/// What is known of some sessions.
pub open spec fn models_of(awaiting: Seq<(usize, AwaitingModel)>) -> Seq<AwaitingModel> {
    awaiting.map_values(|entry: (usize, AwaitingModel)| entry.1)
}

/// Whether `created` starts the session creator of the given sessions: with a new key, on their
/// directory, and with every participant still to be served.
pub open spec fn creator_due(
    session_parameters: SessionParameters,
    awaiting: Seq<AwaitingModel>,
    created: NextStateTransition<MultipartySessionEvent, SessionCreator<CollectedSessions>>,
) -> bool {
    let context = created.spec_state().context;
    &&& context.creator_key.matched()
    &&& context@.directory == awaiting[0].directory
    &&& context.ohttp_keys == awaiting[0].ohttp_keys
    &&& context.session_parameters == session_parameters
    &&& committed(awaiting) matches Ok(keys) && context@.participants == pending(keys)
    &&& created.spec_event() == MultipartySessionEvent::SessionCreatorCreated(context)
    &&& start(created.spec_event()) == Some(
        MultipartySession::SessionCreatorCollectedSessions(created.spec_state())@,
    )
}

/// Builds session creators.
pub struct SessionCreatorBuilder {}

impl SessionCreatorBuilder {
    /// Build a session-creator promotion from open awaiting sessions in `registry`.
    pub fn build_and_promote<R: MultipartySessionRegistry>(
        registry: &R,
        session_parameters: SessionParameters,
    ) -> (r: Result<
        MultipartyGraduationTransition<SessionCreator<CollectedSessions>>,
        SessionCreatorPromoteError<R>,
    >)
        requires
            all_replayable(registry.persisters()),
        ensures
            match r {
                Ok(promotion) => awaiting_sessions(
                    registry.persisters(),
                    registry.persisters().len(),
                ) matches Ok(awaiting) && {
                    &&& promotion.spec_from() == handles_of(awaiting)
                    &&& promotion.spec_close_event() == MultipartySessionEvent::Closed(
                        MultipartySessionOutcome::Graduated(session_parameters),
                    )
                    &&& creator_due(
                        session_parameters,
                        models_of(awaiting),
                        promotion.spec_successor(),
                    )
                },
                Err(SessionCreatorPromoteError::Collect(e)) => collect_reports(e, *registry),
                Err(SessionCreatorPromoteError::Build(e)) => awaiting_sessions(
                    registry.persisters(),
                    registry.persisters().len(),
                ) matches Ok(awaiting) && committed(models_of(awaiting)) == Err::<
                    Seq<HpkePublicKey>,
                    _,
                >(e),
                Err(SessionCreatorPromoteError::Graduation(_)) => false,
            },
            r matches Ok(promotion) ==> forall|k: int|
                0 <= k < promotion.spec_from().len() ==> (#[trigger] promotion.spec_from()[k])
                    < registry.persisters().len(),
    {
        let awaiting = match collect_open_sessions_awaiting_parameters_with_persisters(registry) {
            Ok(awaiting) => awaiting,
            Err(e) => return Err(SessionCreatorPromoteError::Collect(e)),
        };
        let (creator, committed_awaiting) = match build_from_open_awaiting(
            session_parameters.clone(),
            &awaiting,
        ) {
            Ok(built) => built,
            Err(e) => return Err(SessionCreatorPromoteError::Build(e)),
        };
        assert forall|k: int| 0 <= k < committed_awaiting@.len() implies (
        #[trigger] committed_awaiting@[k]) < registry.persisters().len() by {
            assert(committed_awaiting@[k] == awaiting@[k].0);
        }
        Ok(
            MultipartyGraduationTransition::new(
                committed_awaiting,
                MultipartySessionEvent::Closed(
                    MultipartySessionOutcome::Graduated(session_parameters),
                ),
                creator,
            ),
        )
    }
}

/// Whether a key is among some keys.
fn contains_key(keys: &Vec<HpkePublicKey>, key: &HpkePublicKey) -> (r: bool)
    ensures
        r == keys@.contains(*key),
{
    let mut i: usize = 0;
    while i < keys.len()
        invariant
            i <= keys@.len(),
            forall|j: int| 0 <= j < i ==> (#[trigger] keys@[j]) != *key,
        decreases keys@.len() - i,
    {
        if keys[i].same_as(key) {
            assert(keys@[i as int] == *key);
            return true;
        }
        i += 1;
    }
    false
}

/// A failure to take the first sessions together is one for all.
proof fn lemma_committed_prefix(awaiting: Seq<AwaitingModel>, n: int)
    requires
        0 < n <= awaiting.len(),
        committed(awaiting.take(n)) is Err,
    ensures
        committed(awaiting) == committed(awaiting.take(n)),
    decreases awaiting.len() - n,
{
    if n < awaiting.len() {
        assert(awaiting.take(n + 1).drop_last() =~= awaiting.take(n));
        lemma_committed_prefix(awaiting, n + 1);
    } else {
        assert(awaiting.take(n) =~= awaiting);
    }
}

/// Build the session creator of some open awaiting sessions, and the handles of their logs.
pub fn build_from_open_awaiting(
    session_parameters: SessionParameters,
    awaiting: &Vec<(usize, ParticipantAwaitingSessionParameters)>,
) -> (r: Result<
    (
        NextStateTransition<MultipartySessionEvent, SessionCreator<CollectedSessions>>,
        Vec<usize>,
    ),
    SessionCreatorError,
>)
    ensures
        match r {
            Ok((created, handles)) => {
                &&& handles@ == handles_of(awaiting_views(awaiting@))
                &&& creator_due(session_parameters, models_of(awaiting_views(awaiting@)), created)
            },
            Err(e) => committed(models_of(awaiting_views(awaiting@))) == Err::<
                Seq<HpkePublicKey>,
                _,
            >(e),
        },
{
    let ghost views = awaiting_views(awaiting@);
    let ghost models = models_of(views);
    let ghost handles = handles_of(views);
    if awaiting.len() == 0 {
        return Err(SessionCreatorError::NoPendingParticipants);
    }
    let (first_handle, first) = &awaiting[0];
    let directory = first.context.directory.clone();
    let mut participant_keys: Vec<HpkePublicKey> = Vec::new();
    participant_keys.push(*first.parameters_mailbox_public_key());
    let mut committed_awaiting: Vec<usize> = Vec::new();
    committed_awaiting.push(*first_handle);
    let mut i: usize = 1;
    proof {
        assert(models.take(1)[0] == awaiting@[0].1@);
        assert(participant_keys@ =~= seq![models.take(1)[0].parameters_mailbox_public_key]);
        assert(committed_awaiting@ =~= handles.take(1));
    }
    while i < awaiting.len()
        invariant
            1 <= i <= awaiting@.len(),
            models == models_of(awaiting_views(awaiting@)),
            handles == handles_of(awaiting_views(awaiting@)),
            directory@ == models[0].directory,
            committed(models.take(i as int)) == Ok::<_, SessionCreatorError>(participant_keys@),
            committed_awaiting@ == handles.take(i as int),
        decreases awaiting@.len() - i,
    {
        let (handle, participant) = &awaiting[i];
        let ghost longer = models.take(i + 1);
        proof {
            assert(longer.drop_last() =~= models.take(i as int));
            assert(longer.last() == participant@);
            assert(longer[0] == models[0]);
        }
        if !participant.context.directory.same_as(&directory) {
            proof {
                lemma_committed_prefix(models, i + 1);
            }
            return Err(SessionCreatorError::InconsistentDirectory);
        }
        let key = *participant.parameters_mailbox_public_key();
        if contains_key(&participant_keys, &key) {
            proof {
                lemma_committed_prefix(models, i + 1);
            }
            return Err(SessionCreatorError::DuplicateParticipant);
        }
        participant_keys.push(key);
        committed_awaiting.push(*handle);
        assert(committed_awaiting@ =~= handles.take(i + 1));
        i += 1;
    }
    assert(models.take(i as int) =~= models);
    assert(handles.take(i as int) =~= handles);
    let ghost keys = participant_keys@;
    let mut participants: Vec<PendingParticipant> = Vec::new();
    for public_key in it: participant_keys
        invariant
            it.seq() == keys,
            participants@ == pending(keys).take(it.index() as int),
    {
        participants.push(PendingParticipant { public_key, parameters_delivered: false });
        assert(participants@ =~= pending(keys).take(it.index() + 1));
    }
    assert(participants@ =~= pending(keys));
    let context = SessionCreatorContext {
        creator_key: HpkeKeyPair::gen_keypair(),
        directory,
        ohttp_keys: first.context.ohttp_keys,
        session_parameters,
        participants: Arc::new(participants),
    };
    let creator = NextStateTransition::success(
        MultipartySessionEvent::SessionCreatorCreated(context.clone()),
        SessionCreator { state: CollectedSessions {  }, context },
    );
    Ok((creator, committed_awaiting))
}

/// The participants that a session creator is built from are those of the sessions, in order; they
/// share one directory and no two share a key.
pub proof fn law_committed_participants_are_distinct(awaiting: Seq<AwaitingModel>)
    requires
        committed(awaiting) is Ok,
    ensures
        committed(awaiting) matches Ok(keys) && {
            &&& keys.len() == awaiting.len()
            &&& keys.no_duplicates()
            &&& forall|i: int|
                0 <= i < awaiting.len() ==> #[trigger] keys[i]
                    == awaiting[i].parameters_mailbox_public_key && awaiting[i].directory
                    == awaiting[0].directory
        },
    decreases awaiting.len(),
{
    if awaiting.len() > 1 {
        let before = awaiting.drop_last();
        law_committed_participants_are_distinct(before);
        let keys = committed(awaiting)->Ok_0;
        let earlier = committed(before)->Ok_0;
        assert(keys == earlier.push(awaiting.last().parameters_mailbox_public_key));
        assert forall|i: int| 0 <= i < awaiting.len() implies #[trigger] keys[i]
            == awaiting[i].parameters_mailbox_public_key && awaiting[i].directory
            == awaiting[0].directory by {
            if i < before.len() {
                assert(keys[i] == earlier[i]);
                assert(before[i] == awaiting[i]);
            }
        }
        assert forall|i: int, j: int| 0 <= i < j < keys.len() implies keys[i] != keys[j] by {
            assert(keys[i] == earlier[i]);
            if j < earlier.len() {
                assert(keys[j] == earlier[j]);
            }
        }
    }
}

/// Sessions on one directory, no two with the same key, are always taken together.
pub proof fn law_distinct_participants_are_committed(awaiting: Seq<AwaitingModel>)
    requires
        awaiting.len() > 0,
        forall|i: int|
            0 <= i < awaiting.len() ==> (#[trigger] awaiting[i]).directory == awaiting[0].directory,
        forall|i: int, j: int|
            0 <= i < j < awaiting.len() ==> (#[trigger] awaiting[i]).parameters_mailbox_public_key
                != (#[trigger] awaiting[j]).parameters_mailbox_public_key,
    ensures
        committed(awaiting) is Ok,
    decreases awaiting.len(),
{
    if awaiting.len() > 1 {
        let before = awaiting.drop_last();
        assert forall|i: int| 0 <= i < before.len() implies (#[trigger] before[i]).directory
            == before[0].directory by {
            assert(before[i] == awaiting[i]);
        }
        law_distinct_participants_are_committed(before);
        law_committed_participants_are_distinct(before);
        let keys = committed(before)->Ok_0;
        assert forall|i: int| 0 <= i < keys.len() implies #[trigger] keys[i]
            != awaiting.last().parameters_mailbox_public_key by {
            assert(before[i] == awaiting[i]);
        }
    }
}

/// The participants once the first `n` have acknowledged delivery.
pub open spec fn served(keys: Seq<HpkePublicKey>, n: int) -> Seq<PendingParticipant> {
    Seq::new(
        keys.len(),
        |i: int| PendingParticipant { public_key: keys[i], parameters_delivered: i < n },
    )
}

/// A session creator serves its participants one by one, in order, each once: the next to be
/// served is the first not served yet, its delivery can be noted, and the parameters are
/// distributed with the last delivery and not before.
pub proof fn law_creator_serves_everyone(keys: Seq<HpkePublicKey>, n: int)
    requires
        keys.no_duplicates(),
        0 <= n < keys.len(),
    ensures
        served(keys, 0) == pending(keys),
        is_next_undelivered(served(keys, n), n),
        delivered_to(served(keys, n), keys[n]) == Ok::<_, InternalSessionCreatorSessionError>(
            served(keys, n + 1),
        ),
        all_delivered(served(keys, n + 1)) == (n + 1 == keys.len()),
{
    assert(served(keys, 0) =~= pending(keys));
    let participants = served(keys, n);
    assert(is_next_undelivered(participants, n));
    assert forall|j: int, k: int| 0 <= j < k < participants.len() implies (
    #[trigger] participants[j]).public_key != (#[trigger] participants[k]).public_key by {
        assert(keys[j] != keys[k]);
    }
    law_serving_the_next_ends_in_distribution(participants, n);
    lemma_position_is(participants, keys[n], n);
    assert(delivered_to(participants, keys[n])->Ok_0 =~= served(keys, n + 1));
    if n + 1 < keys.len() {
        assert(!served(keys, n + 1)[n + 1].parameters_delivered);
    }
}

impl From<UrlParseError> for SessionCreatorError {
    fn from(value: UrlParseError) -> (r: Self) {
        SessionCreatorError::ParseUrl(value)
    }
}

impl FromSpecImpl<UrlParseError> for SessionCreatorError {
    open spec fn obeys_from_spec() -> bool {
        true
    }

    open spec fn from_spec(value: UrlParseError) -> Self {
        SessionCreatorError::ParseUrl(value)
    }
}

impl From<OhttpEncapsulationError> for SessionCreatorError {
    fn from(value: OhttpEncapsulationError) -> (r: Self) {
        SessionCreatorError::OhttpEncapsulation(value)
    }
}

impl FromSpecImpl<OhttpEncapsulationError> for SessionCreatorError {
    open spec fn obeys_from_spec() -> bool {
        true
    }

    open spec fn from_spec(value: OhttpEncapsulationError) -> Self {
        SessionCreatorError::OhttpEncapsulation(value)
    }
}

/// Sessions cannot be taken together where there are none; where one is on another directory than the
/// first; or where one has the key of one before it. The first session that does not go with those
/// before it says which.
pub proof fn law_why_sessions_are_not_committed(awaiting: Seq<AwaitingModel>, n: int)
    requires
        1 <= n < awaiting.len(),
        forall|i: int|
            0 <= i < n ==> (#[trigger] awaiting[i]).directory == awaiting[0].directory,
        forall|i: int, j: int|
            0 <= i < j < n ==> (#[trigger] awaiting[i]).parameters_mailbox_public_key != (
            #[trigger] awaiting[j]).parameters_mailbox_public_key,
    ensures
        committed(Seq::empty()) == Err::<Seq<HpkePublicKey>, _>(
            SessionCreatorError::NoPendingParticipants,
        ),
        awaiting[n].directory != awaiting[0].directory ==> committed(awaiting) == Err::<
            Seq<HpkePublicKey>,
            _,
        >(SessionCreatorError::InconsistentDirectory),
        awaiting[n].directory == awaiting[0].directory && (exists|i: int|
            0 <= i < n && (#[trigger] awaiting[i]).parameters_mailbox_public_key
                == awaiting[n].parameters_mailbox_public_key) ==> committed(awaiting) == Err::<
            Seq<HpkePublicKey>,
            _,
        >(SessionCreatorError::DuplicateParticipant),
{
    let before = awaiting.take(n);
    let longer = awaiting.take(n + 1);
    assert forall|i: int| 0 <= i < before.len() implies (#[trigger] before[i]).directory
        == before[0].directory by {
        assert(before[i] == awaiting[i]);
    }
    law_distinct_participants_are_committed(before);
    law_committed_participants_are_distinct(before);
    assert(longer.drop_last() =~= before);
    assert(longer.last() == awaiting[n]);
    assert(longer[0] == awaiting[0]);
    let keys = committed(before)->Ok_0;
    if exists|i: int|
        0 <= i < n && (#[trigger] awaiting[i]).parameters_mailbox_public_key
            == awaiting[n].parameters_mailbox_public_key {
        let i = choose|i: int|
            0 <= i < n && (#[trigger] awaiting[i]).parameters_mailbox_public_key
                == awaiting[n].parameters_mailbox_public_key;
        assert(keys[i] == before[i].parameters_mailbox_public_key);
        assert(before[i] == awaiting[i]);
        assert(keys.contains(awaiting[n].parameters_mailbox_public_key));
    }
    if committed(longer) is Err {
        lemma_committed_prefix(awaiting, n + 1);
    }
}

/// The session creator of some sessions has one pending participant for each of them, in their order,
/// with the key that its parameters are delivered to, and to none of them has it delivered yet. It is
/// on the directory of the first, which is that of all, and has the parameters that it was made for.
pub proof fn law_creator_takes_every_session(
    session_parameters: SessionParameters,
    awaiting: Seq<AwaitingModel>,
    created: NextStateTransition<MultipartySessionEvent, SessionCreator<CollectedSessions>>,
)
    requires
        creator_due(session_parameters, awaiting, created),
    ensures
        ({
            let context = created.spec_state().context;
            &&& awaiting.len() > 0
            &&& context.participants@.len() == awaiting.len()
            &&& forall|i: int|
                0 <= i < awaiting.len() ==> (#[trigger] context.participants@[i]).public_key
                    == awaiting[i].parameters_mailbox_public_key
                    && !context.participants@[i].parameters_delivered && awaiting[i].directory
                    == context.directory@
            &&& context.ohttp_keys == awaiting[0].ohttp_keys
            &&& context.session_parameters == session_parameters
            &&& context.creator_key.matched()
            &&& created.spec_event() == MultipartySessionEvent::SessionCreatorCreated(context)
        }),
{
    law_committed_participants_are_distinct(awaiting);
    let keys = committed(awaiting)->Ok_0;
    let participants = created.spec_state().context.participants@;
    assert forall|i: int| 0 <= i < awaiting.len() implies (
    #[trigger] participants[i]).public_key == awaiting[i].parameters_mailbox_public_key
        && !participants[i].parameters_delivered && awaiting[i].directory
        == created.spec_state().context.directory@ by {
        assert(keys[i] == awaiting[i].parameters_mailbox_public_key);
    }
}

/// The handles and the states of some sessions, one of each for each session, in their order.
pub proof fn law_handles_go_with_sessions(awaiting: Seq<(usize, AwaitingModel)>)
    ensures
        handles_of(awaiting).len() == awaiting.len(),
        models_of(awaiting).len() == awaiting.len(),
        forall|i: int|
            0 <= i < awaiting.len() ==> #[trigger] awaiting[i] == (
                handles_of(awaiting)[i],
                models_of(awaiting)[i],
            ),
{
}

/// The message of an error that has a cause ends with the message of the cause.
pub proof fn law_message_ends_with_the_cause(e: SessionCreatorError)
    ensures
        match e {
            SessionCreatorError::ParseUrl(cause) => ends_with(
                e.spec_message(),
                cause.spec_message(),
            ),
            SessionCreatorError::OhttpEncapsulation(cause) => ends_with(
                e.spec_message(),
                cause.spec_message(),
            ),
            _ => true,
        },
{
    match e {
        SessionCreatorError::ParseUrl(cause) => lemma_ends_with(
            "cannot parse url: "@,
            cause.spec_message(),
        ),
        SessionCreatorError::OhttpEncapsulation(cause) => lemma_ends_with(
            "ohttp encapsulation error: "@,
            cause.spec_message(),
        ),
        _ => {},
    }
}

/// The message shown for a promotion that did not take place ends with the message of the cause.
pub proof fn law_promotion_message_ends_with_the_cause<R: MultipartySessionRegistry>(
    e: SessionCreatorPromoteError<R>,
    cause: Seq<char>,
)
    ensures
        ends_with(e.spec_message(cause), cause),
{
    match e {
        SessionCreatorPromoteError::Collect(_) => lemma_ends_with(
            "collect awaiting sessions: "@,
            cause,
        ),
        SessionCreatorPromoteError::Build(_) => lemma_ends_with("session creator build: "@, cause),
        SessionCreatorPromoteError::Graduation(_) => lemma_ends_with(
            "session creator promotion: "@,
            cause,
        ),
    }
}

} // verus!
