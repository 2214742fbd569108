//! Participants that wait for session parameters.
use bitcoin_ohttp::ClientResponse;

use vstd::prelude::*;

use crate::append_mailbox::{
    can_be_named, get_refused, lemma_can_be_named, mailbox_target, sends,
};
use crate::directory::{mailbox_endpoint, short_id_text, ShortId};
use crate::hpke::{
    carries, decrypt_message_a, hpke_public_of, message_a_opened, HpkeKeyPair, HpkePublicKey,
    PADDED_PLAINTEXT_A_LENGTH,
};
use crate::multiparty::participant::error::ParticipantError;
use crate::multiparty::persist::{
    ParticipantParametersAdoption, SessionParametersPollFailure, SessionParametersPollTransition,
};
use crate::multiparty::session::{MultipartySessionEvent, MultipartySessionOutcome};
use crate::multiparty::session_parameters::{
    decode_padded, law_padding_is_ignored, ParametersModel, SessionParameters,
};
use crate::ohttp::{
    asks, directory_answer, encapsulation_error, full_relay_url, get_outcome, ohttp_encapsulate,
    process_get_res, DirectoryResponseError, OhttpKeys, Request,
};
use crate::persist::MaybeFatalTransitionWithNoResults;
use crate::url::{parse_url, Url, UrlModel, UrlParseError};

verus! {

/// Persistent context for a multiparty participant awaiting session parameters.
#[derive(Debug, PartialEq, Eq)]
pub struct AwaitingParticipantContext {
    pub mailbox_key: HpkeKeyPair,
    pub directory: Url,
    pub ohttp_keys: OhttpKeys,
    /// The other party's HPKE public key (initiator for responders, responder for initiators).
    pub reply_key: HpkePublicKey,
}

impl Clone for AwaitingParticipantContext {
    fn clone(&self) -> (r: Self)
        ensures
            r == *self,
    {
        AwaitingParticipantContext {
            mailbox_key: self.mailbox_key,
            directory: self.directory.clone(),
            ohttp_keys: self.ohttp_keys,
            reply_key: self.reply_key,
        }
    }
}

/// A participant that awaits session parameters.
#[derive(Debug, PartialEq, Eq)]
pub struct ParticipantAwaitingSessionParameters {
    /// HPKE public key for the Payjoin Directory mailbox that receives session parameters.
    pub parameters_mailbox_public_key: HpkePublicKey,
    pub context: AwaitingParticipantContext,
}

/// What is known of a participant that awaits session parameters.
pub struct AwaitingModel {
    pub parameters_mailbox_public_key: HpkePublicKey,
    pub mailbox_key: HpkeKeyPair,
    pub directory: UrlModel,
    pub ohttp_keys: OhttpKeys,
    pub reply_key: HpkePublicKey,
}

impl View for ParticipantAwaitingSessionParameters {
    type V = AwaitingModel;

    open spec fn view(&self) -> AwaitingModel {
        AwaitingModel {
            parameters_mailbox_public_key: self.parameters_mailbox_public_key,
            mailbox_key: self.context.mailbox_key,
            directory: self.context.directory@,
            ohttp_keys: self.context.ohttp_keys,
            reply_key: self.context.reply_key,
        }
    }
}

impl AwaitingParticipantContext {
    /// The context of a participant whose mailboxes are on the directory that `directory`
    /// belongs to.
    pub fn new(
        mailbox_key: HpkeKeyPair,
        directory: &Url,
        ohttp_keys: OhttpKeys,
        reply_key: HpkePublicKey,
    ) -> (r: Self)
        ensures
            r.mailbox_key == mailbox_key,
            r.directory@ == directory@.origin(),
            r.ohttp_keys == ohttp_keys,
            r.reply_key == reply_key,
    {
        Self { mailbox_key, directory: directory.payjoin_directory_origin(), ohttp_keys, reply_key }
    }
}

/// What the answer to a poll for session parameters says to the holder of `secret`: the session
/// parameters, or nothing yet.
pub open spec fn polled_parameters(
    answer: Result<Option<Seq<u8>>, DirectoryResponseError>,
    secret: Seq<u8>,
) -> Result<Option<ParametersModel>, ParticipantError> {
    match answer {
        Err(e) => Err(ParticipantError::DirectoryResponse(e)),
        Ok(None) => Ok(None),
        Ok(Some(message)) => match message_a_opened(secret, message) {
            Err(e) => Err(ParticipantError::Hpke(e)),
            Ok((body, _)) => match decode_padded(body) {
                Err(e) => Err(ParticipantError::SessionParameters(e)),
                Ok(m) => Ok(Some(m)),
            },
        },
    }
}

/// Whether polled session parameters are the ones that are due.
pub open spec fn parameters_due(
    r: Result<Option<SessionParameters>, ParticipantError>,
    due: Result<Option<ParametersModel>, ParticipantError>,
) -> bool {
    match due {
        Ok(Some(m)) => r matches Ok(Some(p)) && p@ == m,
        Ok(None) => r matches Ok(None),
        Err(e) => r matches Err(e2) && e2 == e,
    }
}

/// Whether a poll ends in the transition that its outcome calls for.
pub open spec fn poll_transition_due(
    participant: ParticipantAwaitingSessionParameters,
    outcome: Result<Option<SessionParameters>, ParticipantError>,
    r: Result<SessionParametersPollTransition, SessionParametersPollFailure>,
) -> bool {
    match outcome {
        Ok(Some(p)) => r matches Ok(SessionParametersPollTransition::Adoption(adoption))
            && adoption.participant_context == participant.context && adoption.session_parameters
            == p,
        Ok(None) => r matches Ok(SessionParametersPollTransition::Stasis(same)) && same
            == participant,
        Err(e) => if e.may_pass() {
            r matches Err(SessionParametersPollFailure::Transient(e2)) && e2 == e
        } else {
            r matches Err(SessionParametersPollFailure::Fatal(transition)) && transition
                == MaybeFatalTransitionWithNoResults::<
                MultipartySessionEvent,
                (),
                ParticipantAwaitingSessionParameters,
                ParticipantError,
            >::Fatal(MultipartySessionEvent::Closed(MultipartySessionOutcome::Failure), e)
        },
    }
}

impl AwaitingModel {
    /// The mailbox that this participant polls, and that the session creator posts to.
    pub open spec fn parameters_target(self) -> Result<UrlModel, UrlParseError> {
        mailbox_target(self.directory, self.parameters_mailbox_public_key.spec_short_id())
    }
}

impl ParticipantAwaitingSessionParameters {
    /// Mailbox where the session creator POSTs parameters and this participant polls.
    pub fn parameters_mailbox_public_key(&self) -> (r: &HpkePublicKey)
        ensures
            *r == self.parameters_mailbox_public_key,
    {
        &self.parameters_mailbox_public_key
    }

    fn parameters_mailbox_short_id(&self) -> (r: ShortId)
        ensures
            r@ == self.parameters_mailbox_public_key.spec_short_id(),
    {
        self.parameters_mailbox_public_key.short_id()
    }

    fn session_parameters_poll_body(&self) -> (r: Result<
        (Vec<u8>, ClientResponse),
        ParticipantError,
    >)
        ensures
            can_be_named(
                self.context.directory@,
                self.parameters_mailbox_public_key.spec_short_id(),
            ),
            match r {
                Ok(sent) => self@.parameters_target() matches Ok(url) && asks(
                    sent.0@,
                    sent.1,
                    self.context.ohttp_keys,
                    "GET"@,
                    url,
                    Seq::empty(),
                ),
                Err(ParticipantError::OhttpEncapsulation(e)) => get_refused(
                    self@.parameters_target(),
                    e,
                ),
                Err(_) => false,
            },
    {
        let poll_target = mailbox_endpoint(
            &self.context.directory,
            &self.parameters_mailbox_short_id(),
        );
        proof {
            lemma_can_be_named(
                self.context.directory@,
                self.parameters_mailbox_public_key.spec_short_id(),
            );
        }
        match ohttp_encapsulate(&self.context.ohttp_keys, "GET", &poll_target.as_string(), None) {
            Ok(sent) => Ok(sent),
            Err(e) => Err(ParticipantError::OhttpEncapsulation(e)),
        }
    }

    /// Create an OHTTP encapsulated HTTP GET request to poll this participant's mailbox for
    /// HPKE-encrypted session parameters from the session creator.
    pub fn create_session_parameters_poll_request(&self, ohttp_relay: &str) -> (r: Result<
        (Request, ClientResponse),
        ParticipantError,
    >)
        ensures
            can_be_named(
                self.context.directory@,
                self.parameters_mailbox_public_key.spec_short_id(),
            ),
            match r {
                Ok((request, ctx)) => sends(
                    request,
                    ctx,
                    ohttp_relay@,
                    self.context.directory@,
                    self.context.ohttp_keys,
                    "GET"@,
                    self@.parameters_target(),
                    Seq::empty(),
                ),
                Err(ParticipantError::OhttpEncapsulation(e)) => get_refused(
                    self@.parameters_target(),
                    e,
                ),
                Err(ParticipantError::ParseUrl(e)) => {
                    &&& encapsulation_error("GET"@, self@.parameters_target(), Seq::empty()) is None
                    &&& parse_url(ohttp_relay@) == Err::<UrlModel, _>(e)
                },
                Err(_) => false,
            },
    {
        let (body, ohttp_ctx) = match self.session_parameters_poll_body() {
            Ok(sent) => sent,
            Err(e) => return Err(e),
        };
        let relay = match full_relay_url(ohttp_relay, &self.context.directory) {
            Ok(relay) => relay,
            Err(e) => return Err(ParticipantError::ParseUrl(e)),
        };
        Ok((Request::new_v2(&relay, &body), ohttp_ctx))
    }

    /// Process the directory response after polling for session parameters.
    ///
    /// Makes no progress when the directory has nothing yet (HTTP 202 ACCEPTED).
    pub fn process_session_parameters_poll_response(self, body: &[u8], context: ClientResponse) -> (r:
        Result<SessionParametersPollTransition, SessionParametersPollFailure>)
        ensures
            exists|outcome: Result<Option<SessionParameters>, ParticipantError>|
                {
                    &&& parameters_due(
                        outcome,
                        polled_parameters(
                            get_outcome(directory_answer(context, body@)),
                            self.context.mailbox_key.secret@,
                        ),
                    )
                    &&& #[trigger] poll_transition_due(self, outcome, r)
                },
    {
        let outcome = self.inner_process_session_parameters_poll_res(body, context);
        self.poll_transition(outcome)
    }

    /// The transition that the outcome of a poll calls for: nothing yet leaves the participant as
    /// it is, a failure that may pass can be tried again, any other ends the session.
    pub fn poll_transition(self, outcome: Result<Option<SessionParameters>, ParticipantError>) -> (r:
        Result<SessionParametersPollTransition, SessionParametersPollFailure>)
        ensures
            poll_transition_due(self, outcome, r),
    {
        match outcome {
            Ok(Some(session_parameters)) => Ok(
                SessionParametersPollTransition::Adoption(
                    ParticipantParametersAdoption::from_awaiting_participant(
                        &self,
                        session_parameters,
                    ),
                ),
            ),
            Ok(None) => Ok(SessionParametersPollTransition::Stasis(self)),
            Err(e) => {
                if let ParticipantError::DirectoryResponse(directory_error) = &e {
                    if !directory_error.is_fatal() {
                        return Err(SessionParametersPollFailure::Transient(e));
                    }
                }
                Err(
                    SessionParametersPollFailure::Fatal(
                        MaybeFatalTransitionWithNoResults::fatal(
                            MultipartySessionEvent::Closed(MultipartySessionOutcome::Failure),
                            e,
                        ),
                    ),
                )
            },
        }
    }

    fn inner_process_session_parameters_poll_res(&self, body: &[u8], context: ClientResponse) -> (r:
        Result<Option<SessionParameters>, ParticipantError>)
        ensures
            parameters_due(
                r,
                polled_parameters(
                    get_outcome(directory_answer(context, body@)),
                    self.context.mailbox_key.secret@,
                ),
            ),
    {
        let message = match process_get_res(body, context) {
            Ok(Some(message)) => message,
            Ok(None) => return Ok(None),
            Err(e) => return Err(ParticipantError::DirectoryResponse(e)),
        };
        let (params_bytes, _) = match decrypt_message_a(
            &message,
            self.context.mailbox_key.secret_key(),
        ) {
            Ok(read) => read,
            Err(e) => return Err(ParticipantError::Hpke(e)),
        };
        match SessionParameters::from_message_a_body(&params_bytes) {
            Ok(session_parameters) => Ok(Some(session_parameters)),
            Err(e) => Err(ParticipantError::SessionParameters(e)),
        }
    }
}

/// Session parameters that the session creator sealed for a participant's mailbox key are what the
/// participant polls, with the feerate in whole sat/vB.
pub proof fn law_delivered_parameters_are_polled(
    message: Seq<u8>,
    parameters: ParametersModel,
    creator_key: HpkePublicKey,
    mailbox_key: HpkeKeyPair,
)
    requires
        parameters.acceptable(),
        mailbox_key.matched(),
        carries(message, parameters.wire(), creator_key, mailbox_key.public),
    ensures
        polled_parameters(Ok(Some(message)), mailbox_key.secret@) == Ok::<_, ParticipantError>(
            Some(parameters.rounded()),
        ),
{
    assert(hpke_public_of(mailbox_key.secret@) == mailbox_key.public@);
    law_padding_is_ignored(
        parameters,
        (PADDED_PLAINTEXT_A_LENGTH - parameters.wire().len()) as nat,
    );
}

/// A participant polls, and the session creator posts to, the mailbox of the key that parameters are
/// delivered to, one segment below the directory.
pub proof fn law_parameters_mailbox_is_polled(participant: AwaitingModel)
    ensures
        participant.parameters_target() == parse_url(
            participant.directory.join_segment(
                short_id_text(participant.parameters_mailbox_public_key.spec_short_id()),
            ).text(),
        ),
{
}

/// What a poll gives: nothing where the directory has nothing, the parameters of a message that opens
/// for the participant and holds parameters, and otherwise the reason why there are none.
pub proof fn law_polled_parameters(
    answer: Result<Option<Seq<u8>>, DirectoryResponseError>,
    secret: Seq<u8>,
)
    ensures
        answer matches Ok(None) <==> polled_parameters(answer, secret) matches Ok(None),
        answer matches Err(e) ==> polled_parameters(answer, secret) == Err::<
            Option<ParametersModel>,
            _,
        >(ParticipantError::DirectoryResponse(e)),
        answer matches Ok(Some(message)) ==> {
            &&& message_a_opened(secret, message) matches Err(e) ==> polled_parameters(
                answer,
                secret,
            ) == Err::<Option<ParametersModel>, _>(ParticipantError::Hpke(e))
            &&& message_a_opened(secret, message) matches Ok((body, _)) ==> (match decode_padded(
                body,
            ) {
                Ok(m) => polled_parameters(answer, secret) == Ok::<_, ParticipantError>(Some(m)),
                Err(e) => polled_parameters(answer, secret) == Err::<Option<ParametersModel>, _>(
                    ParticipantError::SessionParameters(e),
                ),
            })
        },
{
}

/// What follows a poll: with parameters, their adoption by this participant; with nothing, the
/// participant as it was; with a failure that may pass, nothing but the failure; with any other, the
/// end of the session.
pub proof fn law_parameters_poll_is_followed_up(
    participant: ParticipantAwaitingSessionParameters,
    outcome: Result<Option<SessionParameters>, ParticipantError>,
    r: Result<SessionParametersPollTransition, SessionParametersPollFailure>,
)
    requires
        poll_transition_due(participant, outcome, r),
    ensures
        match outcome {
            Ok(Some(p)) => r matches Ok(SessionParametersPollTransition::Adoption(adoption)) && {
                &&& adoption.session_parameters == p
                &&& adoption.participant_context.directory@ == participant.context.directory@
                &&& adoption.participant_context.ohttp_keys == participant.context.ohttp_keys
            },
            Ok(None) => r matches Ok(SessionParametersPollTransition::Stasis(same)) && same
                == participant,
            Err(ParticipantError::DirectoryResponse(e)) if !e.spec_is_fatal() => r matches Err(
                SessionParametersPollFailure::Transient(error),
            ) && error == ParticipantError::DirectoryResponse(e),
            Err(e) => r matches Err(
                SessionParametersPollFailure::Fatal(
                    MaybeFatalTransitionWithNoResults::Fatal(event, error),
                ),
            ) && event == MultipartySessionEvent::Closed(MultipartySessionOutcome::Failure)
                && error == e,
        },
{
}

/// What is said of a participant is what it holds, part by part.
pub proof fn law_awaiting_participant_is_what_is_said(p: ParticipantAwaitingSessionParameters)
    ensures
        p@.parameters_mailbox_public_key == p.parameters_mailbox_public_key,
        p@.mailbox_key == p.context.mailbox_key,
        p@.directory == p.context.directory@,
        p@.ohttp_keys == p.context.ohttp_keys,
        p@.reply_key == p.context.reply_key,
{
}

/// What is handed out after a poll: the parameters that the poll gives, nothing where it gives nothing,
/// and the failure where it fails.
pub proof fn law_polled_parameters_are_handed_out(
    r: Result<Option<SessionParameters>, ParticipantError>,
    due: Result<Option<ParametersModel>, ParticipantError>,
)
    requires
        parameters_due(r, due),
    ensures
        r is Ok <==> due is Ok,
        r is Err ==> r->Err_0 == due->Err_0,
        r is Ok ==> (r->Ok_0 is Some <==> due->Ok_0 is Some),
        r matches Ok(Some(parameters)) ==> parameters@ == due->Ok_0->0,
{
}

} // verus!
