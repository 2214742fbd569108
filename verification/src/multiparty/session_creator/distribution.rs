//! Delivering the session parameters to every participant, one request each.
use bitcoin_ohttp::ClientResponse;

use vstd::prelude::*;
use vstd::std_specs::convert::FromSpecImpl;

use crate::append_mailbox::{
    can_be_named, lemma_can_be_named, mailbox_target, post_refused, sends,
};
use crate::directory::{mailbox_endpoint, short_id_text, ShortId};
use crate::hpke::{carries, encrypt_message_a, HpkePublicKey};
use crate::multiparty::persist::{EventfulError, EventfulTransition};
use crate::multiparty::session::{
    can_meet, step, MultipartySession, MultipartySessionEvent, MultipartySessionOutcome,
    SessionModel,
};
use crate::multiparty::session_creator::error::{
    InternalSessionCreatorSessionError, SessionCreatorSessionError,
};
use crate::multiparty::session_creator::promotion::SessionCreatorError;
use crate::multiparty::session_creator::{
    all_delivered, delivered_to, is_next_undelivered, law_delivery_serves_one_participant,
    law_distribution_is_complete, undelivered, CollectedSessions, CreatorModel,
    ParametersDistributed, SessionCreator, SessionCreatorContext,
};
use crate::multiparty::session_parameters::lemma_wire_is_short;
use crate::ohttp::{
    asks, directory_answer, encapsulation_error, full_relay_url, ohttp_encapsulate, post_outcome,
    process_post_res, DirectoryResponseError, Request,
};
use crate::url::{parse_url, UrlModel};

verus! {

/// Outbound session-parameters distribution for one participant.
#[derive(Debug, Clone, Copy, PartialEq, Eq)]
pub struct SessionParametersDistributionMessage {
    /// Participant whose mailbox receives the encrypted session parameters.
    pub recipient: HpkePublicKey,
}

/// Typed transition after session parameters are acknowledged by one participant.
#[derive(Debug, PartialEq, Eq)]
pub enum ParametersDelivery {
    /// More participants still need parameters.
    Collecting(SessionCreator<CollectedSessions>),
    /// Every participant has acknowledged delivery.
    Distributed(SessionCreator<ParametersDistributed>),
}

impl View for ParametersDelivery {
    type V = SessionModel;

    open spec fn view(&self) -> SessionModel {
        match self {
            ParametersDelivery::Collecting(state) =>
                MultipartySession::SessionCreatorCollectedSessions(*state)@,
            ParametersDelivery::Distributed(state) =>
                MultipartySession::SessionCreatorParametersDistributed(*state)@,
        }
    }
}

/// Persisted outcome of processing one session-parameters distribution response.
pub type ParametersDistributionTransition = EventfulTransition<
    MultipartySessionEvent,
    ParametersDelivery,
    SessionCreatorSessionError,
>;

impl From<ParametersDelivery> for MultipartySession {
    fn from(delivery: ParametersDelivery) -> (r: Self) {
        match delivery {
            ParametersDelivery::Collecting(state) =>
                MultipartySession::SessionCreatorCollectedSessions(state),
            ParametersDelivery::Distributed(state) =>
                MultipartySession::SessionCreatorParametersDistributed(state),
        }
    }
}

impl FromSpecImpl<ParametersDelivery> for MultipartySession {
    open spec fn obeys_from_spec() -> bool {
        true
    }

    open spec fn from_spec(delivery: ParametersDelivery) -> Self {
        match delivery {
            ParametersDelivery::Collecting(state) =>
                MultipartySession::SessionCreatorCollectedSessions(state),
            ParametersDelivery::Distributed(state) =>
                MultipartySession::SessionCreatorParametersDistributed(state),
        }
    }
}

/// The creator after the participant with the given key has acknowledged delivery: still
/// distributing, or done.
pub open spec fn after_delivery(context: CreatorModel, recipient: HpkePublicKey) -> Result<
    SessionModel,
    InternalSessionCreatorSessionError,
> {
    match delivered_to(context.participants, recipient) {
        Err(e) => Err(e),
        Ok(participants) => {
            let next = CreatorModel { participants, ..context };
            Ok(
                if all_delivered(participants) {
                    SessionModel::SessionCreatorParametersDistributed(next)
                } else {
                    SessionModel::SessionCreatorCollectedSessions(next)
                },
            )
        },
    }
}

/// The events that note a delivery.
pub open spec fn delivery_events(recipient: HpkePublicKey, done: bool) -> Seq<
    MultipartySessionEvent,
> {
    if done {
        seq![
            MultipartySessionEvent::SessionCreatorParametersDeliveredTo(recipient),
            MultipartySessionEvent::SessionCreatorAllParametersDelivered,
        ]
    } else {
        seq![MultipartySessionEvent::SessionCreatorParametersDeliveredTo(recipient)]
    }
}

/// Whether the directory's answer to a delivery ends in the transition it calls for.
pub open spec fn delivery_transition_due(
    context: CreatorModel,
    recipient: HpkePublicKey,
    answer: Result<(), DirectoryResponseError>,
    r: ParametersDistributionTransition,
) -> bool {
    match answer {
        Err(e) => {
            let error = SessionCreatorSessionError(
                InternalSessionCreatorSessionError::DirectoryResponse(e),
            );
            if e.spec_is_fatal() {
                r.0 matches Err(EventfulError::Fatal(event, e2)) && event
                    == MultipartySessionEvent::Closed(MultipartySessionOutcome::Failure) && e2
                    == error
            } else {
                r.0 matches Err(EventfulError::Transient(e2)) && e2 == error
            }
        },
        Ok(()) => match after_delivery(context, recipient) {
            Err(e) => r.0 matches Err(EventfulError::Fatal(event, e2)) && event
                == MultipartySessionEvent::Closed(MultipartySessionOutcome::Failure) && e2
                == SessionCreatorSessionError(e),
            Ok(next) => r.0 matches Ok(done) && done.outcome@ == next && done.events@
                == delivery_events(recipient, next is SessionCreatorParametersDistributed),
        },
    }
}

/// Whether the next delivery starts with the request that it calls for: the encoded session
/// parameters, sealed from the creator's key for the first participant that has not acknowledged
/// delivery, and posted to its mailbox. There is none where every participant has.
pub open spec fn distribution_message_due(
    context: SessionCreatorContext,
    ohttp_relay: Seq<char>,
    r: Result<
        Option<(SessionParametersDistributionMessage, Request, ClientResponse)>,
        SessionCreatorError,
    >,
) -> bool {
    if forall|i: int|
        0 <= i < context@.participants.len() ==> (
        #[trigger] context@.participants[i]).parameters_delivered {
        r matches Ok(None)
    } else {
        exists|i: int|
            {
                let recipient = context@.participants[i].public_key;
                let target = mailbox_target(context@.directory, recipient.spec_short_id());
                &&& #[trigger] is_next_undelivered(context@.participants, i)
                &&& can_be_named(context@.directory, recipient.spec_short_id())
                &&& exists|frame: Seq<u8>|
                    {
                        &&& #[trigger] carries(
                            frame,
                            context@.session_parameters.wire(),
                            context.creator_key.public,
                            recipient,
                        )
                        &&& match r {
                            Ok(Some((message, request, ctx))) => message.recipient == recipient
                                && sends(
                                request,
                                ctx,
                                ohttp_relay,
                                context@.directory,
                                context.ohttp_keys,
                                "POST"@,
                                target,
                                frame,
                            ),
                            Err(SessionCreatorError::OhttpEncapsulation(e)) => post_refused(
                                target,
                                frame,
                                e,
                            ),
                            Err(SessionCreatorError::ParseUrl(e)) => {
                                &&& encapsulation_error("POST"@, target, frame) is None
                                &&& parse_url(ohttp_relay) == Err::<UrlModel, _>(e)
                            },
                            _ => false,
                        }
                    }
            }
    }
}

impl SessionCreatorContext {
    /// The mailbox of a participant.
    pub fn participant_mailbox_id(peer: &HpkePublicKey) -> (r: ShortId)
        ensures
            r@ == peer.spec_short_id(),
    {
        peer.short_id()
    }
}

impl SessionCreator<CollectedSessions> {
    /// Next participant that still needs session parameters, if any.
    pub fn next_undelivered_participant(&self) -> (r: Option<&HpkePublicKey>)
        ensures
            match r {
                Some(key) => exists|i: int| #[trigger]
                    is_next_undelivered(self.context@.participants, i) && *key
                        == self.context@.participants[i].public_key,
                None => forall|i: int|
                    0 <= i < self.context@.participants.len() ==> (
                    #[trigger] self.context@.participants[i]).parameters_delivered,
            },
    {
        match self.context.next_undelivered() {
            Some(p) => Some(&p.public_key),
            None => None,
        }
    }

    /// Build the next OHTTP POST carrying HPKE-encrypted session parameters for one participant.
    ///
    /// Returns `None` when every participant has already acknowledged delivery.
    pub fn next_session_parameters_distribution_message(&self, ohttp_relay: &str) -> (r: Result<
        Option<(SessionParametersDistributionMessage, Request, ClientResponse)>,
        SessionCreatorError,
    >)
        requires
            self.context.session_parameters.allowed_input_types@.len() <= 255,
        ensures
            distribution_message_due(self.context, ohttp_relay@, r),
    {
        let recipient = match self.context.next_undelivered() {
            Some(p) => p.public_key,
            None => return Ok(None),
        };
        let ghost i = choose|i: int|
            is_next_undelivered(self.context@.participants, i)
                && self.context@.participants[i].public_key == recipient;
        assert(is_next_undelivered(self.context@.participants, i));
        let (body, ohttp_ctx) = match self.distribution_post_body(&recipient) {
            Ok(sent) => sent,
            Err(e) => return Err(SessionCreatorError::from_session(e)),
        };
        let relay = match full_relay_url(ohttp_relay, &self.context.directory) {
            Ok(relay) => relay,
            Err(e) => return Err(SessionCreatorError::ParseUrl(e)),
        };
        let request = Request::new_v2(&relay, &body);
        Ok(Some((SessionParametersDistributionMessage { recipient }, request, ohttp_ctx)))
    }

    /// Process the directory response after posting session parameters to a participant mailbox.
    pub fn process_session_parameters_distribution_response(
        self,
        recipient: HpkePublicKey,
        body: &[u8],
        ohttp_context: ClientResponse,
    ) -> (r: ParametersDistributionTransition)
        ensures
            delivery_transition_due(
                self.context@,
                recipient,
                post_outcome(directory_answer(ohttp_context, body@)),
                r,
            ),
    {
        let answer = process_post_res(body, ohttp_context);
        self.delivery_transition(recipient, answer)
    }

    /// The transition that the directory's answer to a delivery calls for.
    pub fn delivery_transition(
        self,
        recipient: HpkePublicKey,
        answer: Result<(), DirectoryResponseError>,
    ) -> (r: ParametersDistributionTransition)
        ensures
            delivery_transition_due(self.context@, recipient, answer, r),
    {
        if let Err(e) = answer {
            let is_fatal = e.is_fatal();
            let err = SessionCreatorSessionError(
                InternalSessionCreatorSessionError::DirectoryResponse(e),
            );
            if !is_fatal {
                return EventfulTransition::transient(err);
            }
            return EventfulTransition::fatal(
                MultipartySessionEvent::Closed(MultipartySessionOutcome::Failure),
                err,
            );
        }
        let delivery = match self.parameters_delivered_to(recipient) {
            Ok(delivery) => delivery,
            Err(e) => {
                return EventfulTransition::fatal(
                    MultipartySessionEvent::Closed(MultipartySessionOutcome::Failure),
                    SessionCreatorSessionError(e),
                );
            },
        };
        let mut events: Vec<MultipartySessionEvent> = Vec::new();
        events.push(MultipartySessionEvent::SessionCreatorParametersDeliveredTo(recipient));
        if let ParametersDelivery::Distributed(_) = &delivery {
            events.push(MultipartySessionEvent::SessionCreatorAllParametersDelivered);
        }
        assert(events@ =~= delivery_events(
            recipient,
            delivery@ is SessionCreatorParametersDistributed,
        ));
        EventfulTransition::success(events, delivery)
    }

    /// The creator after the participant with the given key has acknowledged delivery.
    pub fn parameters_delivered_to(self, recipient: HpkePublicKey) -> (r: Result<
        ParametersDelivery,
        InternalSessionCreatorSessionError,
    >)
        ensures
            match after_delivery(self.context@, recipient) {
                Ok(next) => r matches Ok(delivery) && delivery@ == next,
                Err(e) => r matches Err(e2) && e2 == e,
            },
    {
        let mut context = self.context;
        match context.mark_parameters_delivered(&recipient) {
            Ok(()) => {},
            Err(e) => return Err(e),
        }
        Ok(
            if context.all_parameters_delivered() {
                ParametersDelivery::Distributed(
                    SessionCreator { state: ParametersDistributed {  }, context },
                )
            } else {
                ParametersDelivery::Collecting(
                    SessionCreator { state: CollectedSessions {  }, context },
                )
            },
        )
    }

    fn distribution_post_body(&self, recipient: &HpkePublicKey) -> (r: Result<
        (Vec<u8>, ClientResponse),
        InternalSessionCreatorSessionError,
    >)
        requires
            self.context.session_parameters.allowed_input_types@.len() <= 255,
        ensures
            can_be_named(self.context@.directory, recipient.spec_short_id()),
            exists|frame: Seq<u8>|
                {
                    let target = mailbox_target(
                        self.context@.directory,
                        recipient.spec_short_id(),
                    );
                    &&& #[trigger] carries(
                        frame,
                        self.context@.session_parameters.wire(),
                        self.context.creator_key.public,
                        *recipient,
                    )
                    &&& match r {
                        Ok(sent) => target matches Ok(url) && asks(
                            sent.0@,
                            sent.1,
                            self.context.ohttp_keys,
                            "POST"@,
                            url,
                            frame,
                        ),
                        Err(InternalSessionCreatorSessionError::OhttpEncapsulation(e)) =>
                            post_refused(target, frame, e),
                        Err(_) => false,
                    }
                },
    {
        let params = self.context.session_parameters.to_bytes();
        proof {
            lemma_wire_is_short(self.context@.session_parameters);
        }
        let payload = match encrypt_message_a(
            params,
            self.context.creator_key.public_key(),
            recipient,
        ) {
            Ok(payload) => payload,
            Err(e) => return Err(InternalSessionCreatorSessionError::Hpke(e)),
        };
        assert(carries(
            payload@,
            self.context@.session_parameters.wire(),
            self.context.creator_key.public,
            *recipient,
        ));
        let mailbox = mailbox_endpoint(
            &self.context.directory,
            &SessionCreatorContext::participant_mailbox_id(recipient),
        );
        proof {
            lemma_can_be_named(self.context@.directory, recipient.spec_short_id());
        }
        match ohttp_encapsulate(
            &self.context.ohttp_keys,
            "POST",
            &mailbox.as_string(),
            Some(&payload),
        ) {
            Ok(sent) => Ok(sent),
            Err(e) => Err(InternalSessionCreatorSessionError::OhttpEncapsulation(e)),
        }
    }
}

/// Replaying the events that note a delivery meets no event that cannot be met, and gives the state
/// that saving them gave.
pub proof fn law_delivery_replays(
    context: CreatorModel,
    recipient: HpkePublicKey,
    answer: Result<(), DirectoryResponseError>,
    r: ParametersDistributionTransition,
)
    requires
        delivery_transition_due(context, recipient, answer, r),
        r.0 is Ok,
    ensures
        r.0 matches Ok(done) && {
            let before = SessionModel::SessionCreatorCollectedSessions(context);
            &&& can_meet(before, done.events@[0])
            &&& step(before, done.events@[0]) matches Some(first) && if done.events@.len() == 1 {
                done.outcome@ == first
            } else {
                &&& done.events@.len() == 2
                &&& can_meet(first, done.events@[1])
                &&& step(first, done.events@[1]) == Some(done.outcome@)
            }
        },
{
}

/// What an acknowledged delivery leads to: every participant but the one that acknowledged is as it was,
/// that one is served, and the distribution is complete where it was the last one, and not before.
/// Nothing else that the creator knows changes. The events noted are the delivery and, where it was the
/// last, the completion. Nothing is noted of a delivery that was not due: it ends the session.
pub proof fn law_acknowledged_delivery_is_noted(
    context: CreatorModel,
    recipient: HpkePublicKey,
    r: ParametersDistributionTransition,
)
    requires
        delivery_transition_due(context, recipient, Ok(()), r),
    ensures
        match delivered_to(context.participants, recipient) {
            Err(e) => r.0 matches Err(EventfulError::Fatal(event, error)) && event
                == MultipartySessionEvent::Closed(MultipartySessionOutcome::Failure) && error
                == SessionCreatorSessionError(e),
            Ok(participants) => r.0 matches Ok(done) && {
                let model = match done.outcome {
                    ParametersDelivery::Collecting(creator) => creator.context@,
                    ParametersDelivery::Distributed(creator) => creator.context@,
                };
                &&& model.participants == participants
                &&& model.creator_key == context.creator_key
                &&& model.directory == context.directory
                &&& model.ohttp_keys == context.ohttp_keys
                &&& model.session_parameters == context.session_parameters
                &&& done.outcome is Distributed <==> undelivered(context.participants) == 1
                &&& done.events@[0] == MultipartySessionEvent::SessionCreatorParametersDeliveredTo(
                    recipient,
                )
                &&& done.outcome is Distributed ==> done.events@.len() == 2 && done.events@[1]
                    == MultipartySessionEvent::SessionCreatorAllParametersDelivered
                &&& done.outcome is Collecting ==> done.events@.len() == 1
            },
        },
{
    if delivered_to(context.participants, recipient) is Ok {
        let participants = delivered_to(context.participants, recipient)->Ok_0;
        law_delivery_serves_one_participant(context.participants, recipient);
        law_distribution_is_complete(participants);
    }
}

/// A delivery that the directory did not acknowledge changes nothing: it can be tried again where the
/// failure may pass, and ends the session where it is final.
pub proof fn law_refused_delivery_is_not_noted(
    context: CreatorModel,
    recipient: HpkePublicKey,
    e: DirectoryResponseError,
    r: ParametersDistributionTransition,
)
    requires
        delivery_transition_due(context, recipient, Err(e), r),
    ensures
        ({
            let error = SessionCreatorSessionError(
                InternalSessionCreatorSessionError::DirectoryResponse(e),
            );
            if e.spec_is_fatal() {
                r.0 matches Err(EventfulError::Fatal(event, error2)) && event
                    == MultipartySessionEvent::Closed(MultipartySessionOutcome::Failure) && error2
                    == error
            } else {
                r.0 matches Err(EventfulError::Transient(error2)) && error2 == error
            }
        }),
{
}

/// The next delivery goes to the mailbox of the first participant that has not acknowledged one, on the
/// creator's directory: a frame that this participant opens to the encoded session parameters and the
/// creator's key. There is no next delivery where every participant has acknowledged its own.
pub proof fn law_next_delivery_goes_to_the_next_participant(
    context: SessionCreatorContext,
    ohttp_relay: Seq<char>,
    r: Result<
        Option<(SessionParametersDistributionMessage, Request, ClientResponse)>,
        SessionCreatorError,
    >,
)
    requires
        distribution_message_due(context, ohttp_relay, r),
        context.directory@.well_formed(),
    ensures
        r matches Ok(None) <==> forall|i: int|
            0 <= i < context.participants@.len() ==> (
            #[trigger] context.participants@[i]).parameters_delivered,
        r matches Ok(Some((message, request, ctx))) ==> exists|i: int, frame: Seq<u8>|
            {
                &&& #[trigger] is_next_undelivered(context.participants@, i)
                &&& message.recipient == context.participants@[i].public_key
                &&& #[trigger] carries(
                    frame,
                    context.session_parameters@.wire(),
                    context.creator_key.public,
                    message.recipient,
                )
                &&& parse_url(ohttp_relay) matches Ok(relay)
                &&& request.url@ == relay.relay_to(context.directory@).text()
                &&& request.content_type@ == "message/ohttp-req"@
                &&& asks(
                    request.body@,
                    ctx,
                    context.ohttp_keys,
                    "POST"@,
                    context.directory@.join_segment(
                        short_id_text(message.recipient.spec_short_id()),
                    ),
                    frame,
                )
            },
{
    if r matches Ok(Some(_)) {
        let sent = r->Ok_0->0;
        let i = choose|i: int|
            {
                let recipient = context@.participants[i].public_key;
                let target = mailbox_target(context@.directory, recipient.spec_short_id());
                &&& #[trigger] is_next_undelivered(context@.participants, i)
                &&& can_be_named(context@.directory, recipient.spec_short_id())
                &&& exists|frame: Seq<u8>|
                    {
                        &&& #[trigger] carries(
                            frame,
                            context@.session_parameters.wire(),
                            context.creator_key.public,
                            recipient,
                        )
                        &&& sent.0.recipient == recipient
                        &&& sends(
                            sent.1,
                            sent.2,
                            ohttp_relay,
                            context@.directory,
                            context.ohttp_keys,
                            "POST"@,
                            target,
                            frame,
                        )
                    }
            };
        let recipient = context@.participants[i].public_key;
        let frame = choose|frame: Seq<u8>|
            {
                &&& #[trigger] carries(
                    frame,
                    context@.session_parameters.wire(),
                    context.creator_key.public,
                    recipient,
                )
                &&& sends(
                    sent.1,
                    sent.2,
                    ohttp_relay,
                    context@.directory,
                    context.ohttp_keys,
                    "POST"@,
                    mailbox_target(context@.directory, recipient.spec_short_id()),
                    frame,
                )
            };
        assert(is_next_undelivered(context.participants@, i));
        assert(carries(
            frame,
            context.session_parameters@.wire(),
            context.creator_key.public,
            recipient,
        ));
    }
}

} // verus!
