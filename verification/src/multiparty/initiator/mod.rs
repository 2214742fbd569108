//! The initiator: invites responders with a URI and waits for their reply keys.

pub mod error;
pub mod session;

use bitcoin_ohttp::ClientResponse;

use vstd::prelude::*;

use crate::append_mailbox::{
    can_be_named, get_refused, lemma_can_be_named, mailbox_target, sends,
};
use crate::directory::{mailbox_endpoint, short_id_text, ShortId};
use crate::hpke::{
    carries, decrypt_message_a, hpke_public_of, message_a_opened, HpkeKeyPair, HpkePublicKey,
};
use crate::multiparty::participant::awaiting::{
    AwaitingModel, AwaitingParticipantContext, ParticipantAwaitingSessionParameters,
};
use crate::multiparty::session::{
    start, step, MultipartySession, MultipartySessionEvent, MultipartySessionOutcome, SessionModel,
};
use crate::multiparty::uri::{build_multiparty_pj_uri, has_whole_scheme, uri_text, MultipartyPjUri};
use crate::ohttp::{
    asks, directory_answer, encapsulation_error, full_relay_url, get_outcome, ohttp_encapsulate,
    process_get_res, DirectoryResponseError, OhttpKeys, Request,
};
use crate::persist::{MaybeFatalTransitionWithNoResults, NextStateTransition};
use crate::time::{unix_now, Time};
use crate::uri::{parse_pj, PjModel, PjParam, PjParseError, V2PjParam};
use crate::url::{law_parsed_url_is_well_formed, parse_url, Url, UrlModel, UrlParseError};

pub use crate::multiparty::session::replay_event_log;
pub use error::{InitiatorError, InitiatorSessionError};

verus! {

/// Persistent context for a multiparty initiator session.
#[derive(Debug, PartialEq, Eq)]
pub struct InitiatorContext {
    pub initiator_key: HpkeKeyPair,
    pub directory: Url,
    pub ohttp_keys: OhttpKeys,
    /// Responder reply key from message A, once the initiator has polled the directory.
    pub responder_public_key: Option<HpkePublicKey>,
}

impl Clone for InitiatorContext {
    fn clone(&self) -> (r: Self)
        ensures
            r == *self,
    {
        InitiatorContext {
            initiator_key: self.initiator_key,
            directory: self.directory.clone(),
            ohttp_keys: self.ohttp_keys,
            responder_public_key: self.responder_public_key,
        }
    }
}

/// Multiparty initiator state machine.
#[derive(Debug, PartialEq, Eq)]
pub struct Initiator<State> {
    pub state: State,
    pub context: InitiatorContext,
}

/// The initiator waits for a reply key.
#[derive(Debug, Clone, Copy, PartialEq, Eq)]
pub struct Initialized {}

/// The initiator has a reply key.
#[derive(Debug, Clone, Copy, PartialEq, Eq)]
pub struct HasReplyKey {}

impl InitiatorContext {
    /// What the initiator becomes once it has the reply key of a responder. The session
    /// parameters are delivered to the responder's mailbox.
    pub open spec fn awaiting(self, responder_public_key: HpkePublicKey) -> AwaitingModel {
        AwaitingModel {
            parameters_mailbox_public_key: responder_public_key,
            mailbox_key: self.initiator_key,
            directory: self.directory@.origin(),
            ohttp_keys: self.ohttp_keys,
            reply_key: responder_public_key,
        }
    }

    /// The context of the participant that the initiator becomes.
    pub fn participant_context(&self, responder_public_key: HpkePublicKey) -> (r:
        AwaitingParticipantContext)
        ensures
            r.mailbox_key == self.initiator_key,
            r.directory@ == self.directory@.origin(),
            r.ohttp_keys == self.ohttp_keys,
            r.reply_key == responder_public_key,
    {
        AwaitingParticipantContext::new(
            self.initiator_key,
            &self.directory,
            self.ohttp_keys,
            responder_public_key,
        )
    }

    /// What the initiator becomes once it has the reply key of a responder.
    pub fn to_participant(&self, responder_public_key: HpkePublicKey) -> (r:
        ParticipantAwaitingSessionParameters)
        ensures
            r@ == self.awaiting(responder_public_key),
    {
        ParticipantAwaitingSessionParameters {
            parameters_mailbox_public_key: responder_public_key,
            context: self.participant_context(responder_public_key),
        }
    }
}

impl Initiator<Initialized> {
    /// The session after the initiator has retrieved a reply key.
    pub fn apply_retrieved_reply_key(self, responder_public_key: HpkePublicKey) -> (r:
        MultipartySession)
        ensures
            r@ == SessionModel::ParticipantAwaitingSessionParameters(
                self.context.awaiting(responder_public_key),
            ),
    {
        MultipartySession::ParticipantAwaitingSessionParameters(
            self.context.to_participant(responder_public_key),
        )
    }
}

/// Seconds after which an invitation expires: one day.
pub const INVITATION_SECONDS: u64 = 86400;

impl InitiatorContext {
    /// The mailbox that responders post their reply keys to.
    pub open spec fn mailbox(self) -> Seq<u8> {
        self.initiator_key.public.spec_short_id()
    }

    /// The mailbox that the initiator polls.
    pub open spec fn poll_target(self) -> Result<UrlModel, UrlParseError> {
        mailbox_target(self.directory@, self.mailbox())
    }

    /// The `pj` parameter of an invitation that expires at the given time.
    pub open spec fn invitation(self, expiration: Time) -> PjModel {
        PjModel::V2 {
            directory: self.directory@,
            id: self.mailbox(),
            expiration,
            ohttp_keys: self.ohttp_keys,
            receiver_pubkey: self.initiator_key.public,
        }
    }

    /// The mailbox that responders post their reply keys to.
    pub fn initiator_mailbox_id(&self) -> (r: ShortId)
        ensures
            r@ == self.mailbox(),
    {
        self.initiator_key.public_key().short_id()
    }

    /// The mailbox that the session parameters are delivered to, once the reply key is known.
    pub fn session_parameters_mailbox_id(&self) -> (r: Option<ShortId>)
        ensures
            match self.responder_public_key {
                Some(key) => r matches Some(id) && id@ == key.spec_short_id(),
                None => r is None,
            },
    {
        match &self.responder_public_key {
            Some(responder_public_key) => Some(responder_public_key.short_id()),
            None => None,
        }
    }
}

/// The context of an initiator to be.
#[derive(Debug)]
pub struct InitiatorBuilder(InitiatorContext);

impl InitiatorBuilder {
    /// The context of the initiator to be.
    pub closed spec fn context(self) -> InitiatorContext {
        self.0
    }

    /// Start an initiator with a new key. The directory must be a URL.
    pub fn new(directory: &str, ohttp_keys: OhttpKeys) -> (r: Result<Self, UrlParseError>)
        ensures
            match parse_url(directory@) {
                Ok(url) => r matches Ok(builder) && {
                    &&& builder.context().initiator_key.matched()
                    &&& builder.context().directory@ == url
                    &&& builder.context().directory@.well_formed()
                    &&& builder.context().ohttp_keys == ohttp_keys
                    &&& builder.context().responder_public_key is None
                },
                Err(e) => r == Err::<Self, _>(e),
            },
    {
        let initiator_key = HpkeKeyPair::gen_keypair();
        match Url::parse(directory) {
            Ok(directory_url) => {
                proof {
                    law_parsed_url_is_well_formed(directory@);
                }
                Ok(
                    Self(
                        InitiatorContext {
                            initiator_key,
                            directory: directory_url,
                            ohttp_keys,
                            responder_public_key: None,
                        },
                    ),
                )
            },
            Err(e) => Err(e),
        }
    }

    /// The initiator, and the event that its session starts with.
    pub fn build(self) -> (r: NextStateTransition<MultipartySessionEvent, Initiator<Initialized>>)
        ensures
            r.spec_state().context == self.context(),
            r.spec_event() == MultipartySessionEvent::InitiatorCreated(self.context()),
            start(r.spec_event()) == Some(MultipartySession::InitiatorInitialized(r.spec_state())@),
    {
        NextStateTransition::success(
            MultipartySessionEvent::InitiatorCreated(self.0.clone()),
            Initiator { state: Initialized {  }, context: self.0 },
        )
    }
}

/// Whether `r` is the invitation of an initiator at the time `now`. A directory without a fragment
/// makes an invitation that is read back as what it says.
pub open spec fn invitation_due(context: InitiatorContext, now: u64, r: Option<MultipartyPjUri>) -> bool {
    match Time::spec_after(now, INVITATION_SECONDS) {
        Some(expiration) => r matches Some(uri) && {
            let invitation = context.invitation(expiration);
            &&& uri.spec_pj_param() is V2
            &&& uri.spec_pj_param()@ == invitation
            &&& uri.spec_uri() == uri_text(invitation.text())
            &&& has_whole_scheme(uri.spec_uri())
            &&& context.directory@.well_formed() && context.directory@.fragment is None ==> parse_pj(
                invitation.text(),
            ) == Ok::<_, PjParseError>(invitation)
        },
        None => r is None,
    }
}

/// The reply key, if any, that the answer to a poll holds for the holder of `secret`.
pub open spec fn polled_reply_key(
    answer: Result<Option<Seq<u8>>, DirectoryResponseError>,
    secret: Seq<u8>,
) -> Result<Option<Seq<u8>>, InitiatorError> {
    match answer {
        Err(e) => Err(InitiatorError::DirectoryResponse(e)),
        Ok(None) => Ok(None),
        Ok(Some(message)) => match message_a_opened(secret, message) {
            Err(e) => Err(InitiatorError::Hpke(e)),
            Ok((_, reply_key)) => Ok(Some(reply_key)),
        },
    }
}

/// Whether a polled reply key is the one that is due.
pub open spec fn reply_key_due(
    r: Result<Option<HpkePublicKey>, InitiatorError>,
    due: Result<Option<Seq<u8>>, InitiatorError>,
) -> bool {
    match due {
        Ok(Some(key)) => r matches Ok(Some(k)) && k@ == key && k.valid(),
        Ok(None) => r matches Ok(None),
        Err(e) => r matches Err(e2) && e2 == e,
    }
}

/// The transition that ends a poll of the initiator.
pub type InitiatorPollTransition = MaybeFatalTransitionWithNoResults<
    MultipartySessionEvent,
    ParticipantAwaitingSessionParameters,
    Initiator<Initialized>,
    InitiatorSessionError,
>;

/// Whether a poll ends in the transition that its outcome calls for. Replaying the event of a
/// success gives the state that comes with it.
pub open spec fn reply_transition_due(
    initiator: Initiator<Initialized>,
    outcome: Result<Option<HpkePublicKey>, InitiatorError>,
    r: InitiatorPollTransition,
) -> bool {
    match outcome {
        Ok(Some(key)) => r matches MaybeFatalTransitionWithNoResults::Success(event, state) && {
            &&& event == MultipartySessionEvent::InitiatorRetrievedReplyKey(key)
            &&& state@ == initiator.context.awaiting(key)
            &&& step(SessionModel::InitiatorInitialized(initiator.context), event) == Some(
                MultipartySession::ParticipantAwaitingSessionParameters(state)@,
            )
        },
        Ok(None) => r matches MaybeFatalTransitionWithNoResults::NoResults(same) && same
            == initiator,
        Err(e) => if e.may_pass() {
            r matches MaybeFatalTransitionWithNoResults::Transient(e2) && e2 == e
        } else {
            r matches MaybeFatalTransitionWithNoResults::Fatal(event, e2) && event
                == MultipartySessionEvent::Closed(MultipartySessionOutcome::Failure) && e2 == e
        },
    }
}

impl Initiator<Initialized> {
    /// BIP-321 Payjoin URI shared with responders (`pj` + `mppj=1`, no address). It expires in a
    /// day; there is none where the clock is too late for that to be written down.
    pub fn pj_uri(&self) -> (r: Option<MultipartyPjUri>)
        ensures
            exists|now: u64| #[trigger] invitation_due(self.context, now, r),
    {
        self.pj_uri_at(unix_now())
    }

    /// The URI that is shared with responders at the time `now`.
    pub fn pj_uri_at(&self, now: u64) -> (r: Option<MultipartyPjUri>)
        ensures
            invitation_due(self.context, now, r),
    {
        let expiration = match Time::after(now, INVITATION_SECONDS) {
            Some(expiration) => expiration,
            None => return None,
        };
        self.context.ohttp_keys.public_key.ensure_valid();
        self.context.initiator_key.public.ensure_valid();
        let id = self.context.initiator_mailbox_id();
        assert(id@.len() == 8);
        Some(
            build_multiparty_pj_uri(
                &PjParam::V2(
                    V2PjParam::new(
                        self.context.directory.clone(),
                        id,
                        expiration,
                        self.context.ohttp_keys,
                        self.context.initiator_key.public,
                    ),
                ),
            ),
        )
    }

    fn poll_req_body(&self) -> (r: Result<(Vec<u8>, ClientResponse), InitiatorError>)
        ensures
            can_be_named(self.context.directory@, self.context.mailbox()),
            match r {
                Ok(sent) => self.context.poll_target() matches Ok(url) && asks(
                    sent.0@,
                    sent.1,
                    self.context.ohttp_keys,
                    "GET"@,
                    url,
                    Seq::empty(),
                ),
                Err(InitiatorError::OhttpEncapsulation(e)) => get_refused(
                    self.context.poll_target(),
                    e,
                ),
                Err(_) => false,
            },
    {
        let poll_target = mailbox_endpoint(
            &self.context.directory,
            &self.context.initiator_mailbox_id(),
        );
        proof {
            lemma_can_be_named(self.context.directory@, self.context.mailbox());
        }
        match ohttp_encapsulate(&self.context.ohttp_keys, "GET", &poll_target.as_string(), None) {
            Ok(sent) => Ok(sent),
            Err(e) => Err(InitiatorError::OhttpEncapsulation(e)),
        }
    }

    /// Create an OHTTP encapsulated HTTP GET request to poll the initiator mailbox.
    pub fn create_poll_request(&self, ohttp_relay: &str) -> (r: Result<
        (Request, ClientResponse),
        InitiatorError,
    >)
        ensures
            can_be_named(self.context.directory@, self.context.mailbox()),
            match r {
                Ok((request, ctx)) => sends(
                    request,
                    ctx,
                    ohttp_relay@,
                    self.context.directory@,
                    self.context.ohttp_keys,
                    "GET"@,
                    self.context.poll_target(),
                    Seq::empty(),
                ),
                Err(InitiatorError::OhttpEncapsulation(e)) => get_refused(
                    self.context.poll_target(),
                    e,
                ),
                Err(InitiatorError::ParseUrl(e)) => {
                    &&& encapsulation_error("GET"@, self.context.poll_target(), Seq::empty())
                        is None
                    &&& parse_url(ohttp_relay@) == Err::<UrlModel, _>(e)
                },
                Err(_) => false,
            },
    {
        let (body, ohttp_ctx) = match self.poll_req_body() {
            Ok(sent) => sent,
            Err(e) => return Err(e),
        };
        let relay = match full_relay_url(ohttp_relay, &self.context.directory) {
            Ok(relay) => relay,
            Err(e) => return Err(InitiatorError::ParseUrl(e)),
        };
        Ok((Request::new_v2(&relay, &body), ohttp_ctx))
    }

    /// Process the response to a poll request from the Payjoin Directory.
    ///
    /// On success, transitions after decrypting and parsing only the sender's reply key from
    /// message A. Returns no-results when the directory has nothing yet (HTTP 202 ACCEPTED).
    pub fn process_poll_request(self, body: &[u8], context: ClientResponse) -> (r:
        InitiatorPollTransition)
        ensures
            exists|outcome: Result<Option<HpkePublicKey>, InitiatorError>|
                {
                    &&& reply_key_due(
                        outcome,
                        polled_reply_key(
                            get_outcome(directory_answer(context, body@)),
                            self.context.initiator_key.secret@,
                        ),
                    )
                    &&& #[trigger] reply_transition_due(self, outcome, r)
                },
    {
        let outcome = self.inner_process_poll_res(body, context);
        self.poll_transition(outcome)
    }

    /// The transition that the outcome of a poll calls for: nothing yet leaves the initiator as it
    /// is, a failure that may pass can be tried again, any other ends the session.
    pub fn poll_transition(self, outcome: Result<Option<HpkePublicKey>, InitiatorError>) -> (r:
        InitiatorPollTransition)
        ensures
            reply_transition_due(self, outcome, r),
    {
        match outcome {
            Ok(Some(responder_public_key)) => MaybeFatalTransitionWithNoResults::success(
                MultipartySessionEvent::InitiatorRetrievedReplyKey(responder_public_key),
                self.context.to_participant(responder_public_key),
            ),
            Ok(None) => MaybeFatalTransitionWithNoResults::no_results(self),
            Err(e) => {
                if let InitiatorError::DirectoryResponse(directory_error) = &e {
                    if !directory_error.is_fatal() {
                        return MaybeFatalTransitionWithNoResults::transient(e);
                    }
                }
                MaybeFatalTransitionWithNoResults::fatal(
                    MultipartySessionEvent::Closed(MultipartySessionOutcome::Failure),
                    e,
                )
            },
        }
    }

    fn inner_process_poll_res(&self, body: &[u8], context: ClientResponse) -> (r: Result<
        Option<HpkePublicKey>,
        InitiatorError,
    >)
        ensures
            reply_key_due(
                r,
                polled_reply_key(
                    get_outcome(directory_answer(context, body@)),
                    self.context.initiator_key.secret@,
                ),
            ),
    {
        let message = match process_get_res(body, context) {
            Ok(Some(message)) => message,
            Ok(None) => return Ok(None),
            Err(e) => return Err(InitiatorError::DirectoryResponse(e)),
        };
        match decrypt_message_a(&message, self.context.initiator_key.secret_key()) {
            Ok((_, reply_key)) => Ok(Some(reply_key)),
            Err(e) => Err(InitiatorError::Hpke(e)),
        }
    }
}

/// A message A that a responder sealed for the initiator gives the initiator the responder's key.
pub proof fn law_sealed_reply_key_is_polled(
    message: Seq<u8>,
    body: Seq<u8>,
    responder_key: HpkePublicKey,
    initiator_key: HpkeKeyPair,
)
    requires
        initiator_key.matched(),
        carries(message, body, responder_key, initiator_key.public),
    ensures
        polled_reply_key(Ok(Some(message)), initiator_key.secret@) == Ok::<_, InitiatorError>(
            Some(responder_key@),
        ),
{
    assert(hpke_public_of(initiator_key.secret@) == initiator_key.public@);
}

/// An invitation names the initiator's own mailbox, key, directory and OHTTP keys, and is valid for one
/// day from the time it is made; there is none where that day ends after the last time that can be
/// written down.
pub proof fn law_invitation_is_the_initiators(
    context: InitiatorContext,
    now: u64,
    r: Option<MultipartyPjUri>,
)
    requires
        invitation_due(context, now, r),
    ensures
        r is Some <==> now + 24 * 60 * 60 <= u32::MAX,
        r matches Some(uri) ==> {
            &&& uri.spec_pj_param() matches PjParam::V2(v2)
            &&& v2.directory@ == context.directory@
            &&& v2.id@ == context.initiator_key.public.spec_short_id()
            &&& v2.expiration.0 == now + 24 * 60 * 60
            &&& v2.ohttp_keys == context.ohttp_keys
            &&& v2.receiver_pubkey == context.initiator_key.public
            &&& uri.spec_uri() == uri_text(uri.spec_pj_param()@.text())
        },
{
    if r is Some {
        let v2 = r->0.spec_pj_param()->V2_0;
        assert(v2@ == context.invitation(v2.expiration));
    }
}

/// The initiator polls the mailbox of its own key, one segment below its directory.
pub proof fn law_initiator_polls_its_mailbox(context: InitiatorContext)
    ensures
        context.poll_target() == parse_url(
            context.directory@.join_segment(
                short_id_text(context.initiator_key.public.spec_short_id()),
            ).text(),
        ),
{
}

/// What a poll gives: nothing where the directory has nothing, the key of the sender of a message that
/// opens for the initiator, and otherwise the reason why there is none.
pub proof fn law_polled_reply_key(
    answer: Result<Option<Seq<u8>>, DirectoryResponseError>,
    secret: Seq<u8>,
)
    ensures
        answer matches Ok(None) <==> polled_reply_key(answer, secret) matches Ok(None),
        answer matches Err(e) ==> polled_reply_key(answer, secret) == Err::<Option<Seq<u8>>, _>(
            InitiatorError::DirectoryResponse(e),
        ),
        answer matches Ok(Some(message)) ==> {
            &&& message_a_opened(secret, message) matches Err(e) ==> polled_reply_key(
                answer,
                secret,
            ) == Err::<Option<Seq<u8>>, _>(InitiatorError::Hpke(e))
            &&& message_a_opened(secret, message) matches Ok((_, key)) ==> polled_reply_key(
                answer,
                secret,
            ) == Ok::<_, InitiatorError>(Some(key))
        },
{
}

/// What follows a poll: with a reply key, the event that notes it and the participant that awaits
/// parameters in that responder's mailbox; with nothing, the initiator as it was; with a failure that
/// may pass, nothing but the failure; with any other, the end of the session.
pub proof fn law_poll_is_followed_up(
    initiator: Initiator<Initialized>,
    outcome: Result<Option<HpkePublicKey>, InitiatorError>,
    r: InitiatorPollTransition,
)
    requires
        reply_transition_due(initiator, outcome, r),
    ensures
        match outcome {
            Ok(Some(key)) => r matches MaybeFatalTransitionWithNoResults::Success(event, state) && {
                &&& event == MultipartySessionEvent::InitiatorRetrievedReplyKey(key)
                &&& state.parameters_mailbox_public_key == key
                &&& state.context.reply_key == key
                &&& state.context.mailbox_key == initiator.context.initiator_key
                &&& state.context.ohttp_keys == initiator.context.ohttp_keys
                &&& state.context.directory@.scheme == initiator.context.directory@.scheme
                &&& state.context.directory@.authority == initiator.context.directory@.authority
                &&& state.context.directory@.path == seq!['/']
            },
            Ok(None) => r matches MaybeFatalTransitionWithNoResults::NoResults(same) && same
                == initiator,
            Err(InitiatorError::DirectoryResponse(e)) if !e.spec_is_fatal() => r matches
                MaybeFatalTransitionWithNoResults::Transient(error) && error
                == InitiatorError::DirectoryResponse(e),
            Err(e) => r matches MaybeFatalTransitionWithNoResults::Fatal(event, error) && event
                == MultipartySessionEvent::Closed(MultipartySessionOutcome::Failure) && error == e,
        },
{
    if let Ok(Some(key)) = outcome {
        assert(initiator.context.awaiting(key).directory.path == seq!['/']);
    }
}

/// What is handed out after a poll: the key that the poll gives, nothing where it gives nothing, and
/// the failure where it fails.
pub proof fn law_polled_reply_key_is_handed_out(
    r: Result<Option<HpkePublicKey>, InitiatorError>,
    due: Result<Option<Seq<u8>>, InitiatorError>,
)
    requires
        reply_key_due(r, due),
    ensures
        r is Ok <==> due is Ok,
        r is Err ==> r->Err_0 == due->Err_0,
        r is Ok ==> (r->Ok_0 is Some <==> due->Ok_0 is Some),
        r matches Ok(Some(key)) ==> key@ == due->Ok_0->0,
{
}

} // verus!
