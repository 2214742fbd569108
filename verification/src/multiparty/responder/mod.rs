//! The responder: accepts an initiator's URI and sends its reply key.

pub mod error;
pub mod session;

use bitcoin_ohttp::ClientResponse;

use vstd::prelude::*;

use crate::append_mailbox::{post_refused, sends};
use crate::directory::{mailbox_url, short_id_text};
use crate::hpke::{carries, encrypt_message_a, HpkeKeyPair, HpkePublicKey};
use crate::multiparty::initiator::InitiatorContext;
use crate::multiparty::participant::awaiting::{
    AwaitingModel, AwaitingParticipantContext, ParticipantAwaitingSessionParameters,
};
use crate::multiparty::session::{
    can_meet, start, step, MultipartySession, MultipartySessionEvent, MultipartySessionOutcome,
    SessionModel,
};
use crate::multiparty::uri::MultipartyPjUri;
use crate::ohttp::{
    asks, directory_answer, encapsulation_error, full_relay_url, ohttp_encapsulate, padded_request,
    post_outcome, process_post_res, DirectoryResponseError, Request,
};
use crate::persist::{MaybeFatalTransition, NextStateTransition};
use crate::time::{unix_now, Time};
use crate::uri::{PjParam, V2PjParam};
use crate::url::{law_url_text_round_trips, parse_url, UrlModel, UrlParseError};

pub use crate::multiparty::session::replay_event_log;
pub use error::{ResponderError, ResponderSessionError};

verus! {

/// Persistent context for a multiparty responder session.
#[derive(Debug, PartialEq, Eq)]
pub struct ResponderContext {
    pub responder_key: HpkeKeyPair,
    pub pj_param: PjParam,
    /// Original BIP-321 URI the responder accepted.
    pub uri: String,
    pub sent_reply_key: Option<HpkePublicKey>,
}

impl Clone for ResponderContext {
    fn clone(&self) -> (r: Self)
        ensures
            r == *self,
    {
        ResponderContext {
            responder_key: self.responder_key,
            pj_param: self.pj_param.clone(),
            uri: self.uri.clone(),
            sent_reply_key: self.sent_reply_key,
        }
    }
}

/// Multiparty responder state machine.
#[derive(Debug, PartialEq, Eq)]
pub struct Responder<State> {
    pub state: State,
    pub context: ResponderContext,
}

/// The responder has accepted a URI.
#[derive(Debug, Clone, Copy, PartialEq, Eq)]
pub struct Initialized {}

/// The responder has sent its reply key.
#[derive(Debug, Clone, Copy, PartialEq, Eq)]
pub struct SentReplyKey {}

impl ResponderContext {
    /// What the responder becomes once it has sent its reply key. The session parameters are
    /// delivered to its own mailbox.
    pub open spec fn awaiting(self) -> AwaitingModel {
        let v2 = self.pj_param->V2_0;
        AwaitingModel {
            parameters_mailbox_public_key: self.responder_key.public,
            mailbox_key: self.responder_key,
            directory: v2@.endpoint().origin(),
            ohttp_keys: v2.ohttp_keys,
            reply_key: v2.receiver_pubkey,
        }
    }

    pub fn pj_param(&self) -> (r: &PjParam)
        ensures
            *r == self.pj_param,
    {
        &self.pj_param
    }

    pub fn uri(&self) -> (r: &str)
        ensures
            r@ == self.uri@,
    {
        &self.uri
    }

    /// What the responder becomes once it has sent its reply key.
    pub fn to_participant(&self) -> (r: ParticipantAwaitingSessionParameters)
        requires
            self.pj_param is V2,
        ensures
            r@ == self.awaiting(),
    {
        let v2 = match &self.pj_param {
            PjParam::V2(v2) => v2,
            PjParam::V1(_) => vstd::pervasive::unreached(),
        };
        ParticipantAwaitingSessionParameters {
            parameters_mailbox_public_key: self.responder_key.public,
            context: AwaitingParticipantContext::new(
                self.responder_key,
                &v2.endpoint(),
                v2.ohttp_keys,
                v2.receiver_pubkey,
            ),
        }
    }
}

impl Responder<Initialized> {
    /// The session after the responder has sent its reply key.
    pub fn apply_sent_reply_key(self) -> (r: MultipartySession)
        requires
            self.context.pj_param is V2,
        ensures
            r@ == SessionModel::ParticipantAwaitingSessionParameters(self.context.awaiting()),
    {
        MultipartySession::ParticipantAwaitingSessionParameters(self.context.to_participant())
    }
}

/// Why an invitation is not accepted at the time `now`, if it is not.
pub open spec fn refusal(pj_param: PjParam, now: u64) -> Option<ResponderError> {
    match pj_param {
        PjParam::V1(_) => Some(ResponderError::NotV2),
        PjParam::V2(v2) => if v2.expiration.spec_elapsed_at(now) {
            Some(ResponderError::Expired)
        } else {
            None
        },
    }
}

/// Fails where an invitation is not accepted at the time `now`.
fn check_invitation(pj_param: &PjParam, now: u64) -> (r: Result<(), ResponderError>)
    ensures
        r == (match refusal(*pj_param, now) {
            Some(e) => Err::<(), _>(e),
            None => Ok(()),
        }),
{
    match pj_param {
        PjParam::V2(v2) => {
            if v2.expiration().elapsed_at(now) {
                return Err(ResponderError::Expired);
            }
            Ok(())
        },
        PjParam::V1(_) => Err(ResponderError::NotV2),
    }
}

/// Starts responders.
pub struct ResponderBuilder {}

/// Whether a responder starts from an invitation at the time `now` as it should: with a new key,
/// unless the invitation is not accepted.
pub open spec fn responder_due(
    uri: MultipartyPjUri,
    now: u64,
    r: Result<NextStateTransition<MultipartySessionEvent, Responder<Initialized>>, ResponderError>,
) -> bool {
    match refusal(uri.spec_pj_param(), now) {
        Some(e) => r matches Err(e2) && e2 == e,
        None => r matches Ok(transition) && {
            let context = transition.spec_state().context;
            &&& context.responder_key.matched()
            &&& context.pj_param == uri.spec_pj_param()
            &&& context.pj_param is V2
            &&& context.uri@ == uri.spec_uri()
            &&& context.sent_reply_key is None
            &&& transition.spec_event() == MultipartySessionEvent::ResponderCreated(context)
            &&& start(transition.spec_event()) == Some(
                MultipartySession::ResponderInitialized(transition.spec_state())@,
            )
        },
    }
}

impl ResponderBuilder {
    /// Start a responder session from a multiparty BIP-321 Payjoin URI.
    pub fn from_uri(uri: MultipartyPjUri) -> (r: Result<
        NextStateTransition<MultipartySessionEvent, Responder<Initialized>>,
        ResponderError,
    >)
        ensures
            exists|now: u64| #[trigger] responder_due(uri, now, r),
    {
        Self::from_uri_at(uri, unix_now())
    }

    /// Start a responder session at the time `now`.
    pub fn from_uri_at(uri: MultipartyPjUri, now: u64) -> (r: Result<
        NextStateTransition<MultipartySessionEvent, Responder<Initialized>>,
        ResponderError,
    >)
        ensures
            responder_due(uri, now, r),
    {
        let pj_param = uri.pj_param().clone();
        if let Err(e) = check_invitation(&pj_param, now) {
            return Err(e);
        }
        let context = ResponderContext {
            responder_key: HpkeKeyPair::gen_keypair(),
            pj_param,
            uri: uri.as_str().to_owned(),
            sent_reply_key: None,
        };
        Ok(
            NextStateTransition::success(
                MultipartySessionEvent::ResponderCreated(context.clone()),
                Responder { state: Initialized {  }, context },
            ),
        )
    }
}

impl ResponderContext {
    /// Fails where the invitation is not accepted at the time `now`: it is no v2 invitation, or
    /// it has expired.
    pub fn ensure_not_expired(&self, now: u64) -> (r: Result<(), ResponderError>)
        ensures
            r == (match refusal(self.pj_param, now) {
                Some(e) => Err::<(), _>(e),
                None => Ok(()),
            }),
    {
        check_invitation(&self.pj_param, now)
    }

    /// The mailbox, with the parameters of the invitation, that the reply key is posted to.
    pub open spec fn reply_target(self) -> Result<UrlModel, UrlParseError> {
        parse_url(self.pj_param@.endpoint().text())
    }
}

/// Whether the reply starts, at the time `now`, with the request that it calls for: a message A
/// without a body, from the responder's key to the initiator's. The mailbox of a well-formed
/// invitation can be named.
pub open spec fn reply_request_due(
    context: ResponderContext,
    ohttp_relay: Seq<char>,
    now: u64,
    r: Result<(Request, ClientResponse), ResponderError>,
) -> bool {
    match refusal(context.pj_param, now) {
        Some(e) => r matches Err(e2) && e2 == e,
        None => {
            let v2 = context.pj_param->V2_0;
            let target = context.reply_target();
            &&& v2.directory@.well_formed() ==> target == Ok::<_, UrlParseError>(v2@.endpoint())
            &&& exists|frame: Seq<u8>|
                {
                    &&& #[trigger] carries(
                        frame,
                        Seq::empty(),
                        context.responder_key.public,
                        v2.receiver_pubkey,
                    )
                    &&& match r {
                        Ok((request, ctx)) => sends(
                            request,
                            ctx,
                            ohttp_relay,
                            v2@.endpoint(),
                            v2.ohttp_keys,
                            "POST"@,
                            target,
                            frame,
                        ),
                        Err(ResponderError::OhttpEncapsulation(e)) => post_refused(
                            target,
                            frame,
                            e,
                        ),
                        Err(ResponderError::ParseUrl(e)) => {
                            &&& encapsulation_error("POST"@, target, frame) is None
                            &&& parse_url(ohttp_relay) == Err::<UrlModel, _>(e)
                        },
                        Err(_) => false,
                    }
                }
        },
    }
}

/// The transition that ends the posting of a reply key.
pub type ReplyTransition = MaybeFatalTransition<
    MultipartySessionEvent,
    Responder<SentReplyKey>,
    ResponderSessionError,
>;

/// Whether the directory's answer to the reply ends in the transition it calls for.
pub open spec fn reply_transition_due(
    responder: Responder<Initialized>,
    answer: Result<(), DirectoryResponseError>,
    r: ReplyTransition,
) -> bool {
    match answer {
        Ok(()) => r matches MaybeFatalTransition::Success(event, state) && event
            == MultipartySessionEvent::ResponderSentReplyKey && state.context == (
        ResponderContext {
            sent_reply_key: Some(responder.context.responder_key.public),
            ..responder.context
        }),
        Err(e) => if e.spec_is_fatal() {
            r matches MaybeFatalTransition::Fatal(event, error) && event
                == MultipartySessionEvent::Closed(MultipartySessionOutcome::Failure) && error
                == ResponderError::DirectoryResponse(e)
        } else {
            r matches MaybeFatalTransition::Transient(error) && error
                == ResponderError::DirectoryResponse(e)
        },
    }
}

impl Responder<Initialized> {
    fn post_reply_body(&self, now: u64) -> (r: Result<(Vec<u8>, ClientResponse), ResponderError>)
        ensures
            match refusal(self.context.pj_param, now) {
                Some(e) => r matches Err(e2) && e2 == e,
                None => {
                    let v2 = self.context.pj_param->V2_0;
                    let target = self.context.reply_target();
                    &&& v2.directory@.well_formed() ==> target == Ok::<_, UrlParseError>(
                        v2@.endpoint(),
                    )
                    &&& exists|frame: Seq<u8>|
                        {
                            &&& #[trigger] carries(
                                frame,
                                Seq::empty(),
                                self.context.responder_key.public,
                                v2.receiver_pubkey,
                            )
                            &&& match r {
                                Ok(sent) => target matches Ok(url) && asks(
                                    sent.0@,
                                    sent.1,
                                    v2.ohttp_keys,
                                    "POST"@,
                                    url,
                                    frame,
                                ),
                                Err(ResponderError::OhttpEncapsulation(e)) => post_refused(
                                    target,
                                    frame,
                                    e,
                                ),
                                Err(_) => false,
                            }
                        }
                },
            },
    {
        if let Err(e) = self.context.ensure_not_expired(now) {
            return Err(e);
        }
        let v2 = match &self.context.pj_param {
            PjParam::V2(v2) => v2,
            PjParam::V1(_) => return Err(ResponderError::NotV2),
        };
        let mailbox_url = v2.endpoint();
        proof {
            if v2.directory@.well_formed() {
                law_url_text_round_trips(v2@.endpoint());
            }
        }
        let message_a = match encrypt_message_a(
            Vec::new(),
            self.context.responder_key.public_key(),
            v2.receiver_pubkey(),
        ) {
            Ok(message_a) => message_a,
            Err(e) => return Err(ResponderError::Hpke(e)),
        };
        assert(carries(
            message_a@,
            Seq::empty(),
            self.context.responder_key.public,
            v2.receiver_pubkey,
        ));
        match ohttp_encapsulate(
            v2.ohttp_keys(),
            "POST",
            &mailbox_url.as_string(),
            Some(&message_a),
        ) {
            Ok(sent) => Ok(sent),
            Err(e) => Err(ResponderError::OhttpEncapsulation(e)),
        }
    }

    /// Create an OHTTP encapsulated HTTP POST carrying message A (responder reply key).
    pub fn create_post_reply_request(&self, ohttp_relay: &str) -> (r: Result<
        (Request, ClientResponse),
        ResponderError,
    >)
        ensures
            exists|now: u64| #[trigger] reply_request_due(self.context, ohttp_relay@, now, r),
    {
        self.create_post_reply_request_at(ohttp_relay, unix_now())
    }

    /// Create the request at the time `now`.
    pub fn create_post_reply_request_at(&self, ohttp_relay: &str, now: u64) -> (r: Result<
        (Request, ClientResponse),
        ResponderError,
    >)
        ensures
            reply_request_due(self.context, ohttp_relay@, now, r),
    {
        let (body, ohttp_ctx) = match self.post_reply_body(now) {
            Ok(sent) => sent,
            Err(e) => return Err(e),
        };
        let relay = match full_relay_url(ohttp_relay, &self.context.pj_param.endpoint_url()) {
            Ok(relay) => relay,
            Err(e) => return Err(ResponderError::ParseUrl(e)),
        };
        Ok((Request::new_v2(&relay, &body), ohttp_ctx))
    }

    /// Process the directory response after posting the responder reply key.
    pub fn process_post_reply_response(self, body: &[u8], context: ClientResponse) -> (r:
        ReplyTransition)
        ensures
            reply_transition_due(self, post_outcome(directory_answer(context, body@)), r),
    {
        let answer = process_post_res(body, context);
        self.reply_transition(answer)
    }

    /// The transition that the directory's answer to the reply calls for.
    pub fn reply_transition(self, answer: Result<(), DirectoryResponseError>) -> (r:
        ReplyTransition)
        ensures
            reply_transition_due(self, answer, r),
    {
        if let Err(directory_error) = answer {
            let is_fatal = directory_error.is_fatal();
            let err = ResponderError::DirectoryResponse(directory_error);
            if !is_fatal {
                return MaybeFatalTransition::transient(err);
            }
            return MaybeFatalTransition::fatal(
                MultipartySessionEvent::Closed(MultipartySessionOutcome::Failure),
                err,
            );
        }
        let reply_key = self.context.responder_key.public;
        let context = ResponderContext { sent_reply_key: Some(reply_key), ..self.context };
        MaybeFatalTransition::success(
            MultipartySessionEvent::ResponderSentReplyKey,
            Responder { state: SentReplyKey {  }, context },
        )
    }
}

impl Responder<SentReplyKey> {
    /// What the responder is once it has sent its reply key.
    pub fn to_participant(&self) -> (r: ParticipantAwaitingSessionParameters)
        requires
            self.context.pj_param is V2,
        ensures
            r@ == self.context.awaiting(),
    {
        self.context.to_participant()
    }
}

/// The event of a posted reply key can be met, and replaying it gives the participant that the
/// responder with a posted reply key is.
pub proof fn law_sent_reply_key_replays(
    responder: Responder<Initialized>,
    answer: Result<(), DirectoryResponseError>,
    r: ReplyTransition,
)
    requires
        responder.context.pj_param is V2,
        reply_transition_due(responder, answer, r),
        answer is Ok,
    ensures
        r matches MaybeFatalTransition::Success(event, state) && {
            let before = SessionModel::ResponderInitialized(responder.context);
            &&& can_meet(before, event)
            &&& step(before, event) == Some(
                SessionModel::ParticipantAwaitingSessionParameters(state.context.awaiting()),
            )
        },
{
}

/// A responder posts to the mailbox that the initiator who invited it polls: any request for the
/// endpoint of the invitation is the request for that mailbox.
pub proof fn law_reply_goes_to_the_polled_mailbox(
    initiator: InitiatorContext,
    expiration: Time,
    method: Seq<char>,
    content: Seq<u8>,
)
    ensures
        padded_request(method, initiator.invitation(expiration).endpoint(), content)
            == padded_request(
            method,
            mailbox_url(initiator.directory@, initiator.mailbox()),
            content,
        ),
{
}

/// Session parameters for a responder are delivered to the mailbox that the responder polls, and
/// sealed for the key that it polls with: what the initiator knows of it is what it is.
pub proof fn law_initiator_and_responder_meet(
    initiator: InitiatorContext,
    expiration: Time,
    responder: ResponderContext,
)
    requires
        responder.pj_param is V2,
        responder.pj_param@ == initiator.invitation(expiration),
    ensures
        ({
            let theirs = initiator.awaiting(responder.responder_key.public);
            let own = responder.awaiting();
            &&& theirs.parameters_target() == own.parameters_target()
            &&& theirs.ohttp_keys == own.ohttp_keys
            &&& theirs.parameters_mailbox_public_key == own.mailbox_key.public
            &&& theirs.reply_key == own.mailbox_key.public
            &&& own.reply_key == theirs.mailbox_key.public
        }),
{
    let v2 = responder.pj_param->V2_0;
    assert(v2@ == initiator.invitation(expiration));
    assert(v2@.endpoint().origin() == initiator.directory@.origin());
}

/// An invitation is accepted up to the second before it expires, and only where it is a v2 one.
pub proof fn law_invitation_is_accepted_in_time(pj_param: PjParam, now: u64)
    ensures
        refusal(pj_param, now) == (match pj_param {
            PjParam::V1(_) => Some(ResponderError::NotV2),
            PjParam::V2(v2) => if now < v2.expiration.0 {
                None::<ResponderError>
            } else {
                Some(ResponderError::Expired)
            },
        }),
{
}

/// A responder starts with a key of its own and with the invitation that it accepts, of which nothing
/// changes; it has not sent its key yet.
pub proof fn law_responder_accepts_the_invitation(
    uri: MultipartyPjUri,
    now: u64,
    r: Result<NextStateTransition<MultipartySessionEvent, Responder<Initialized>>, ResponderError>,
)
    requires
        responder_due(uri, now, r),
    ensures
        r is Ok <==> (uri.spec_pj_param() matches PjParam::V2(v2) && now < v2.expiration.0),
        r matches Err(e) ==> e == (if uri.spec_pj_param() is V2 {
            ResponderError::Expired
        } else {
            ResponderError::NotV2
        }),
        r matches Ok(transition) ==> {
            let context = transition.spec_state().context;
            &&& context.responder_key.matched()
            &&& context.pj_param == uri.spec_pj_param()
            &&& context.uri@ == uri.spec_uri()
            &&& context.sent_reply_key is None
            &&& transition.spec_event() == MultipartySessionEvent::ResponderCreated(context)
        },
{
}

/// The reply goes, through the relay's gateway for the directory of the invitation, to the mailbox of the
/// invitation: a frame without a body that the initiator opens to the responder's key. No reply is made
/// to an invitation that is not accepted any more.
pub proof fn law_reply_goes_to_the_invitation(
    context: ResponderContext,
    ohttp_relay: Seq<char>,
    now: u64,
    r: Result<(Request, ClientResponse), ResponderError>,
)
    requires
        reply_request_due(context, ohttp_relay, now, r),
    ensures
        r matches Ok((request, ctx)) ==> {
            &&& context.pj_param matches PjParam::V2(v2)
            &&& now < v2.expiration.0
            &&& parse_url(ohttp_relay) matches Ok(relay)
            &&& request.url@ == relay.relay_to(v2.directory@).text()
            &&& request.content_type@ == "message/ohttp-req"@
            &&& v2.directory@.well_formed() ==> exists|frame: Seq<u8>|
                {
                    &&& #[trigger] carries(
                        frame,
                        Seq::empty(),
                        context.responder_key.public,
                        v2.receiver_pubkey,
                    )
                    &&& asks(
                        request.body@,
                        ctx,
                        v2.ohttp_keys,
                        "POST"@,
                        UrlModel {
                            fragment: v2@.endpoint().fragment,
                            ..v2.directory@.join_segment(short_id_text(v2.id@))
                        },
                        frame,
                    )
                }
        },
        context.pj_param is V1 ==> r == Err::<(Request, ClientResponse), _>(ResponderError::NotV2),
        context.pj_param matches PjParam::V2(v2) && v2.expiration.0 <= now ==> r == Err::<
            (Request, ClientResponse),
            _,
        >(ResponderError::Expired),
{
    if r is Ok {
        let v2 = context.pj_param->V2_0;
        let sent = r->Ok_0;
        let frame = choose|frame: Seq<u8>|
            {
                &&& #[trigger] carries(
                    frame,
                    Seq::empty(),
                    context.responder_key.public,
                    v2.receiver_pubkey,
                )
                &&& sends(
                    sent.0,
                    sent.1,
                    ohttp_relay,
                    v2@.endpoint(),
                    v2.ohttp_keys,
                    "POST"@,
                    context.reply_target(),
                    frame,
                )
            };
        assert(carries(
            frame,
            Seq::empty(),
            context.responder_key.public,
            v2.receiver_pubkey,
        ));
        assert(v2@.endpoint().origin() == v2.directory@.origin());
    }
}

/// What follows the directory's answer to the reply: that the key was sent, with the key noted and
/// nothing else changed; nothing but the failure, where it may pass; the end of the session otherwise.
pub proof fn law_reply_is_followed_up(
    responder: Responder<Initialized>,
    answer: Result<(), DirectoryResponseError>,
    r: ReplyTransition,
)
    requires
        reply_transition_due(responder, answer, r),
    ensures
        match answer {
            Ok(()) => r matches MaybeFatalTransition::Success(event, state) && {
                &&& event == MultipartySessionEvent::ResponderSentReplyKey
                &&& state.context.sent_reply_key == Some(responder.context.responder_key.public)
                &&& state.context.responder_key == responder.context.responder_key
                &&& state.context.pj_param == responder.context.pj_param
                &&& state.context.uri == responder.context.uri
            },
            Err(e) if !e.spec_is_fatal() => r matches MaybeFatalTransition::Transient(error)
                && error == ResponderError::DirectoryResponse(e),
            Err(e) => r matches MaybeFatalTransition::Fatal(event, error) && event
                == MultipartySessionEvent::Closed(MultipartySessionOutcome::Failure) && error
                == ResponderError::DirectoryResponse(e),
        },
{
}

} // verus!
