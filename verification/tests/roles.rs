use std::collections::HashMap;

use bitcoin_ohttp::hpke::{Aead, Kdf, Kem};
use bitcoin_ohttp::{KeyConfig, Server, SymmetricSuite};
use multiparty_payjoin::hpke::{encrypt_message_a, HpkeError, HpkeKeyPair};
use multiparty_payjoin::multiparty::initiator::InitiatorError;
use multiparty_payjoin::multiparty::participant::error::ParticipantError;
use multiparty_payjoin::multiparty::participant::plan::{
    Action, InputPair, OutPoint, Plan, TxIn, TxOut,
};
use multiparty_payjoin::multiparty::persist::{
    EventfulError, InMemoryMultipartyRegistry, MultipartySessionRegistry,
    SessionParametersPollFailure, SessionParametersPollTransition,
};
use multiparty_payjoin::multiparty::responder::ResponderError;
use multiparty_payjoin::multiparty::session::{
    collect_open_sessions_awaiting_parameters_with_persisters, registry_is_replayable,
    replay_event_log, MultipartySession, MultipartySessionEvent, MultipartySessionOutcome,
};
use multiparty_payjoin::multiparty::session_creator::error::{
    InternalSessionCreatorSessionError, SessionCreatorSessionError,
};
use multiparty_payjoin::multiparty::session_creator::{
    ParametersDelivery, SessionCreatorBuilder, SessionCreatorError, SessionCreatorPromoteError,
};
use multiparty_payjoin::multiparty::session_parameters::{
    InputScriptType, SessionParameters, SessionParametersError,
};
use multiparty_payjoin::multiparty::uri::MultipartyPjUri;
use multiparty_payjoin::multiparty::{
    HasPlan, HasSessionParameters, Initiator, InitiatorBuilder, InitiatorInitialized, Participant,
    PlanExecution, Responder, ResponderBuilder, ResponderInitialized,
};
use multiparty_payjoin::ohttp::{
    DirectoryResponseError, OhttpEncapsulationError, OhttpKeys, Request,
};
use multiparty_payjoin::persist::{
    ApiError, InMemoryPersister, MaybeFatalTransition, MaybeFatalTransitionWithNoResults,
    OptionalTransitionOutcome, PersistedError, SessionPersister,
};
use multiparty_payjoin::uri::PjParam;
use multiparty_payjoin::url::UrlParseError;

const RELAY: &str = "http://127.0.0.1:8080";
const DIRECTORY: &str = "https://payjo.in";

/// A directory in memory: append-only mailboxes behind an OHTTP server.
struct Directory {
    server: Server,
    mailboxes: HashMap<String, Vec<u8>>,
}

impl Directory {
    fn new() -> Directory {
        let suite = SymmetricSuite::new(Kdf::HkdfSha256, Aead::ChaCha20Poly1305);
        let config = KeyConfig::new(1, Kem::K256Sha256, vec![suite]).expect("a key");
        Directory { server: Server::new(config).expect("a server"), mailboxes: HashMap::new() }
    }

    fn keys(&self) -> OhttpKeys {
        OhttpKeys::decode(&self.server.config().encode().expect("encodes")).expect("a key")
    }

    fn answer(&mut self, request: &Request) -> Vec<u8> {
        let (bytes, ctx) = self.server.decapsulate(&request.body).expect("opens");
        let message =
            bhttp::Message::read_bhttp(&mut std::io::Cursor::new(&bytes[..])).expect("a request");
        let path =
            String::from_utf8(message.control().path().expect("a path").to_vec()).expect("text");
        let (status, body) = match message.control().method().expect("a method") {
            b"POST" => {
                self.mailboxes.entry(path).or_default().extend_from_slice(message.content());
                (200u16, vec![])
            }
            _ => match self.mailboxes.get(&path) {
                Some(content) => (200, content.clone()),
                None => (202, vec![]),
            },
        };
        let status = bhttp::StatusCode::try_from(status).expect("a status");
        let mut reply = bhttp::Message::response(status);
        reply.write_content(&body);
        let mut out = Vec::new();
        reply.write_bhttp(bhttp::Mode::KnownLength, &mut out).expect("encodes");
        out.resize(8144, 0);
        ctx.encapsulate(&out).expect("encapsulates")
    }
}

fn parameters() -> SessionParameters {
    SessionParameters::new(2, 0, 500, 0xffff_fffd, vec![InputScriptType::P2wpkh], None)
}

fn initiator(directory: &Directory) -> Initiator<InitiatorInitialized> {
    let mut log = InMemoryPersister::new();
    InitiatorBuilder::new(DIRECTORY, directory.keys())
        .expect("a directory")
        .build()
        .save(&mut log)
        .expect("saved")
}

fn responder_for(initiator: &Initiator<InitiatorInitialized>) -> Responder<ResponderInitialized> {
    let uri = initiator.pj_uri().expect("an invitation");
    let uri = MultipartyPjUri::parse(uri.as_str()).expect("a multiparty URI");
    let mut log = InMemoryPersister::new();
    ResponderBuilder::from_uri(uri).ok().expect("accepted").save(&mut log).expect("saved")
}

#[test]
fn initiator_polls_its_own_mailbox() {
    let mut directory = Directory::new();
    let initiator = initiator(&directory);
    let (request, ctx) = initiator.create_poll_request(RELAY).expect("request");
    assert_eq!(request.url, "http://127.0.0.1:8080/https://payjo.in/");
    let response = directory.answer(&request);
    match initiator.process_poll_request(&response, ctx) {
        MaybeFatalTransitionWithNoResults::NoResults(_) => {}
        _ => panic!("nothing was posted yet"),
    }
}

#[test]
fn responder_reply_reaches_the_initiator() {
    let mut directory = Directory::new();
    let initiator = initiator(&directory);
    let responder = responder_for(&initiator);
    let responder_key = responder.context.responder_key.public;

    let (request, ctx) = responder.create_post_reply_request(RELAY).expect("request");
    assert_eq!(request.url, "http://127.0.0.1:8080/https://payjo.in/");
    let response = directory.answer(&request);
    let mut responder_log = InMemoryPersister::new();
    let sent = responder
        .process_post_reply_response(&response, ctx)
        .save(&mut responder_log)
        .expect("accepted");
    assert_eq!(sent.context.sent_reply_key, Some(responder_key));
    assert_eq!(*responder_log.log(), vec![MultipartySessionEvent::ResponderSentReplyKey]);
    let waiting = sent.to_participant();
    assert_eq!(*waiting.parameters_mailbox_public_key(), responder_key);

    let (request, ctx) = initiator.create_poll_request(RELAY).expect("request");
    let response = directory.answer(&request);
    match initiator.process_poll_request(&response, ctx) {
        MaybeFatalTransitionWithNoResults::Success(event, participant) => {
            assert_eq!(event, MultipartySessionEvent::InitiatorRetrievedReplyKey(responder_key));
            assert_eq!(*participant.parameters_mailbox_public_key(), responder_key);
        }
        _ => panic!("the reply key was posted"),
    }
}

#[test]
fn initiator_errors() {
    let mut directory = Directory::new();
    assert_eq!(
        InitiatorBuilder::new("payjo.in", directory.keys()).err(),
        Some(UrlParseError::MissingScheme)
    );
    let first = initiator(&directory);
    assert_eq!(
        first.create_poll_request("relay").err(),
        Some(InitiatorError::ParseUrl(UrlParseError::MissingScheme))
    );
    let (request, ctx) = first.create_poll_request(RELAY).expect("request");
    let path = format!("/{}", first.context.initiator_mailbox_id().as_string());
    directory.mailboxes.insert(path, vec![0u8; 7168]);
    let response = directory.answer(&request);
    match first.process_poll_request(&response, ctx) {
        MaybeFatalTransitionWithNoResults::Fatal(event, error) => {
            assert_eq!(event, MultipartySessionEvent::Closed(MultipartySessionOutcome::Failure));
            assert_eq!(error, InitiatorError::Hpke(HpkeError::Hpke));
            assert!(error.message().starts_with("HPKE decryption failed: "));
        }
        _ => panic!("the message does not open"),
    }

    let second = initiator(&directory);
    let (_, ctx) = second.create_poll_request(RELAY).expect("request");
    match second.process_poll_request(&[0u8; 5], ctx) {
        MaybeFatalTransitionWithNoResults::Transient(error) => assert_eq!(
            error,
            InitiatorError::DirectoryResponse(DirectoryResponseError::InvalidSize(5))
        ),
        _ => panic!("a short response may pass"),
    }

    let long = InitiatorBuilder::new(
        &format!("https://payjo.in/{}", "a".repeat(9000)),
        directory.keys(),
    )
    .expect("a directory")
    .build()
    .save(&mut InMemoryPersister::new())
    .expect("saved");
    assert_eq!(
        long.create_poll_request(RELAY).err(),
        Some(InitiatorError::OhttpEncapsulation(OhttpEncapsulationError::Bhttp))
    );
}

#[test]
fn poll_outcomes_and_their_transitions() {
    let directory = Directory::new();
    let key = HpkeKeyPair::gen_keypair().public;
    assert!(matches!(
        initiator(&directory).poll_transition(Ok(Some(key))),
        MaybeFatalTransitionWithNoResults::Success(
            MultipartySessionEvent::InitiatorRetrievedReplyKey(_),
            _
        )
    ));
    assert!(matches!(
        initiator(&directory).poll_transition(Ok(None)),
        MaybeFatalTransitionWithNoResults::NoResults(_)
    ));
    let passing = InitiatorError::DirectoryResponse(
        DirectoryResponseError::UnexpectedStatusCode(500),
    );
    assert!(matches!(
        initiator(&directory).poll_transition(Err(passing)),
        MaybeFatalTransitionWithNoResults::Transient(_)
    ));
    let fatal = InitiatorError::DirectoryResponse(
        DirectoryResponseError::UnexpectedStatusCode(404),
    );
    assert!(matches!(
        initiator(&directory).poll_transition(Err(fatal)),
        MaybeFatalTransitionWithNoResults::Fatal(MultipartySessionEvent::Closed(_), _)
    ));
}

#[test]
fn invitation_expires_after_a_day() {
    let directory = Directory::new();
    let initiator = initiator(&directory);
    let uri = initiator.pj_uri_at(1_000_000).expect("an invitation");
    match uri.pj_param() {
        PjParam::V2(v2) => assert_eq!(v2.expiration().0, 1_086_400),
        _ => panic!("invitations are v2"),
    }
    assert!(initiator.pj_uri_at(u32::MAX as u64).is_none());

    let again = MultipartyPjUri::parse(uri.as_str()).expect("read back");
    assert!(ResponderBuilder::from_uri_at(again, 1_086_399).is_ok());
    assert_eq!(
        ResponderBuilder::from_uri_at(uri, 1_086_400).err(),
        Some(ResponderError::Expired)
    );
}

#[test]
fn responder_errors() {
    let directory = Directory::new();
    let v1 = MultipartyPjUri::parse("bitcoin:?pj=https://example.com/pj&mppj=1").expect("v1");
    assert_eq!(ResponderBuilder::from_uri(v1).err(), Some(ResponderError::NotV2));
    assert_eq!(
        ResponderError::NotV2.message(),
        "multiparty responder requires a v2 pj parameter"
    );
    assert_eq!(ResponderError::Expired.message(), "Payjoin URI expired");

    let initiator = initiator(&directory);
    let responder = responder_for(&initiator);
    assert_eq!(
        responder.create_post_reply_request("relay").err(),
        Some(ResponderError::ParseUrl(UrlParseError::MissingScheme))
    );
    assert_eq!(
        responder.create_post_reply_request_at(RELAY, u32::MAX as u64).err(),
        Some(ResponderError::Expired)
    );
    assert_eq!(responder.context.ensure_not_expired(0), Ok(()));
    assert_eq!(
        responder.context.ensure_not_expired(u32::MAX as u64),
        Err(ResponderError::Expired)
    );
    assert!(matches!(
        responder_for(&initiator)
            .reply_transition(Err(DirectoryResponseError::UnexpectedStatusCode(503))),
        MaybeFatalTransition::Transient(_)
    ));
    assert!(matches!(
        responder_for(&initiator)
            .reply_transition(Err(DirectoryResponseError::UnexpectedStatusCode(400))),
        MaybeFatalTransition::Fatal(MultipartySessionEvent::Closed(_), _)
    ));
}

#[test]
fn fatal_transition_closes_the_log() {
    let directory = Directory::new();
    let initiator = initiator(&directory);
    let mut log = InMemoryPersister::new();
    let error = InitiatorError::DirectoryResponse(
        DirectoryResponseError::UnexpectedStatusCode(404),
    );
    let outcome = initiator.poll_transition(Err(error)).save(&mut log);
    assert!(matches!(outcome, Err(PersistedError::Api(ApiError::Fatal(_)))));
    assert_eq!(
        *log.log(),
        vec![MultipartySessionEvent::Closed(MultipartySessionOutcome::Failure)]
    );
    assert!(log.is_closed());
}

/// The handles of the logs that await session parameters.
fn awaiting(registry: &InMemoryMultipartyRegistry) -> Vec<usize> {
    assert!(registry_is_replayable(registry));
    collect_open_sessions_awaiting_parameters_with_persisters(registry)
        .ok()
        .expect("the logs replay")
        .into_iter()
        .map(|(handle, _)| handle)
        .collect()
}

/// Registers an initiator's log that awaits session parameters of a responder, and gives the
/// responder.
fn met(
    directory: &mut Directory,
    registry: &mut InMemoryMultipartyRegistry,
) -> (usize, Responder<ResponderInitialized>) {
    let handle = registry.new_session().expect("a log");
    let initiator = InitiatorBuilder::new(DIRECTORY, directory.keys())
        .expect("a directory")
        .build()
        .save(registry.persister_mut(handle))
        .expect("saved");
    let responder = responder_for(&initiator);
    let (request, _) = responder.create_post_reply_request(RELAY).expect("request");
    directory.answer(&request);
    let (request, ctx) = initiator.create_poll_request(RELAY).expect("request");
    let response = directory.answer(&request);
    let outcome = initiator
        .process_poll_request(&response, ctx)
        .save(registry.persister_mut(handle))
        .expect("saved");
    assert!(matches!(outcome, OptionalTransitionOutcome::Progress(_)));
    (handle, responder)
}

#[test]
fn session_parameters_reach_every_responder() {
    let mut directory = Directory::new();
    let mut registry = InMemoryMultipartyRegistry::new();
    let (_, one) = met(&mut directory, &mut registry);
    let (_, two) = met(&mut directory, &mut registry);
    let parameters = parameters();

    assert_eq!(awaiting(&registry), vec![0, 1]);
    let promotion = SessionCreatorBuilder::build_and_promote(&registry, parameters.clone())
        .ok()
        .expect("two participants");
    let (creator_handle, mut creator) = promotion.save(&mut registry).expect("saved");
    assert_eq!(creator_handle, 2);
    assert!(awaiting(&registry).is_empty());
    for handle in 0..2usize {
        assert!(registry.persister(handle).is_closed());
        assert_eq!(
            registry.persister(handle).log().last(),
            Some(&MultipartySessionEvent::Closed(MultipartySessionOutcome::Graduated(
                parameters.clone()
            )))
        );
    }
    assert_eq!(creator.next_undelivered_participant(), Some(one.context.responder_key.public_key()));

    for last in [false, true] {
        let (message, request, ctx) = creator
            .next_session_parameters_distribution_message(RELAY)
            .expect("request")
            .expect("someone is to be served");
        let response = directory.answer(&request);
        let delivery = creator
            .process_session_parameters_distribution_response(message.recipient, &response, ctx)
            .save(registry.persister_mut(creator_handle))
            .expect("saved");
        match delivery {
            ParametersDelivery::Collecting(next) => {
                assert!(!last);
                creator = next;
            }
            ParametersDelivery::Distributed(done) => {
                assert!(last);
                assert!(done.context.all_parameters_delivered());
                creator = multiparty_payjoin::multiparty::SessionCreator {
                    state: multiparty_payjoin::multiparty::CollectedSessions {},
                    context: done.context,
                };
            }
        }
    }
    assert_eq!(creator.next_undelivered_participant(), None);
    assert!(matches!(creator.next_session_parameters_distribution_message(RELAY), Ok(None)));
    let (replayed, history) =
        replay_event_log(registry.persister_mut(creator_handle)).ok().expect("replays");
    assert!(matches!(replayed, MultipartySession::SessionCreatorParametersDistributed(_)));
    assert_eq!(history.events().len(), 4);

    for responder in [one, two] {
        let waiting = responder.context.to_participant();
        let (request, ctx) =
            waiting.create_session_parameters_poll_request(RELAY).expect("request");
        let response = directory.answer(&request);
        match waiting.process_session_parameters_poll_response(&response, ctx) {
            Ok(SessionParametersPollTransition::Adoption(adoption)) => {
                assert_eq!(*adoption.session_parameters(), parameters)
            }
            _ => panic!("the parameters were delivered"),
        }
    }
}

#[test]
fn adopted_parameters_start_a_new_log() {
    let mut directory = Directory::new();
    let initiator = initiator(&directory);
    let mut registry = InMemoryMultipartyRegistry::new();
    let handle = registry.new_session().expect("a log");
    let uri = initiator.pj_uri().expect("an invitation");
    let responder = ResponderBuilder::from_uri(uri)
        .ok()
        .expect("accepted")
        .save(registry.persister_mut(handle))
        .expect("saved");
    let (request, ctx) = responder.create_post_reply_request(RELAY).expect("request");
    let response = directory.answer(&request);
    let sent = responder
        .process_post_reply_response(&response, ctx)
        .save(registry.persister_mut(handle))
        .expect("saved");
    let waiting = sent.to_participant();

    let (request, ctx) = waiting.create_session_parameters_poll_request(RELAY).expect("request");
    let response = directory.answer(&request);
    let waiting = match waiting.process_session_parameters_poll_response(&response, ctx) {
        Ok(SessionParametersPollTransition::Stasis(waiting)) => waiting,
        _ => panic!("nothing was delivered yet"),
    };

    let parameters = parameters();
    let frame = encrypt_message_a(
        parameters.to_bytes(),
        HpkeKeyPair::gen_keypair().public_key(),
        waiting.parameters_mailbox_public_key(),
    )
    .expect("short");
    let id = waiting.parameters_mailbox_public_key().short_id().as_string();
    directory.mailboxes.insert(format!("/{}", id), frame);
    let (request, ctx) = waiting.create_session_parameters_poll_request(RELAY).expect("request");
    let response = directory.answer(&request);
    let transition =
        waiting.process_session_parameters_poll_response(&response, ctx).ok().expect("delivered");
    let (other, _) = met(&mut directory, &mut registry);
    assert_eq!(awaiting(&registry), vec![handle, other]);
    let next = match transition.save(&mut registry, handle).expect("saved") {
        OptionalTransitionOutcome::Progress(next) => next,
        OptionalTransitionOutcome::Stasis(_) => panic!("the parameters were adopted"),
    };
    assert_eq!(next, 2);
    assert!(registry.persister(handle).is_closed());
    assert_eq!(awaiting(&registry), vec![other]);
    let (session, _) = replay_event_log(registry.persister_mut(next)).ok().expect("replays");
    match session {
        MultipartySession::ParticipantHasSessionParameters(participant) => {
            assert_eq!(*participant.session_parameters(), parameters)
        }
        _ => panic!("the participant has session parameters"),
    }
}

#[test]
fn bad_session_parameters_end_the_session() {
    let mut directory = Directory::new();
    let initiator = initiator(&directory);
    let waiting = responder_for(&initiator).context.to_participant();
    let frame = encrypt_message_a(
        b"nonsense".to_vec(),
        HpkeKeyPair::gen_keypair().public_key(),
        waiting.parameters_mailbox_public_key(),
    )
    .expect("short");
    let id = waiting.parameters_mailbox_public_key().short_id().as_string();
    directory.mailboxes.insert(format!("/{}", id), frame);
    let (request, ctx) = waiting.create_session_parameters_poll_request(RELAY).expect("request");
    let response = directory.answer(&request);
    match waiting.process_session_parameters_poll_response(&response, ctx) {
        Err(SessionParametersPollFailure::Fatal(
            MaybeFatalTransitionWithNoResults::Fatal(event, error),
        )) => {
            assert_eq!(event, MultipartySessionEvent::Closed(MultipartySessionOutcome::Failure));
            assert_eq!(
                error,
                ParticipantError::SessionParameters(SessionParametersError::InvalidMagic)
            );
        }
        _ => panic!("these are no session parameters"),
    }
}

#[test]
fn passing_failure_of_a_parameters_poll() {
    let directory = Directory::new();
    let initiator = initiator(&directory);
    let waiting = responder_for(&initiator).context.to_participant();
    assert_eq!(
        waiting.create_session_parameters_poll_request("relay").err(),
        Some(ParticipantError::ParseUrl(UrlParseError::MissingScheme))
    );
    let error = ParticipantError::DirectoryResponse(
        DirectoryResponseError::UnexpectedStatusCode(500),
    );
    assert!(matches!(
        waiting.poll_transition(Err(error)),
        Err(SessionParametersPollFailure::Transient(_))
    ));
}

#[test]
fn promotion_needs_participants_on_one_directory() {
    let mut directory = Directory::new();
    let mut registry = InMemoryMultipartyRegistry::new();
    assert!(matches!(
        SessionCreatorBuilder::build_and_promote(&registry, parameters()),
        Err(SessionCreatorPromoteError::Build(SessionCreatorError::NoPendingParticipants))
    ));

    met(&mut directory, &mut registry);
    let handle = registry.new_session().expect("a log");
    let elsewhere = InitiatorBuilder::new("https://other.example", directory.keys())
        .expect("a directory")
        .build()
        .save(registry.persister_mut(handle))
        .expect("saved");
    elsewhere
        .poll_transition(Ok(Some(HpkeKeyPair::gen_keypair().public)))
        .save(registry.persister_mut(handle))
        .expect("saved");
    assert!(matches!(
        SessionCreatorBuilder::build_and_promote(&registry, parameters()),
        Err(SessionCreatorPromoteError::Build(SessionCreatorError::InconsistentDirectory))
    ));
}

#[test]
fn promotion_refuses_a_duplicate_participant() {
    let directory = Directory::new();
    let mut registry = InMemoryMultipartyRegistry::new();
    let key = HpkeKeyPair::gen_keypair().public;
    for _ in 0..2 {
        let handle = registry.new_session().expect("a log");
        InitiatorBuilder::new(DIRECTORY, directory.keys())
            .expect("a directory")
            .build()
            .save(registry.persister_mut(handle))
            .expect("saved")
            .poll_transition(Ok(Some(key)))
            .save(registry.persister_mut(handle))
            .expect("saved");
    }
    let refused = SessionCreatorBuilder::build_and_promote(&registry, parameters());
    match refused {
        Err(error) => {
            assert!(matches!(
                error,
                SessionCreatorPromoteError::Build(SessionCreatorError::DuplicateParticipant)
            ));
            assert_eq!(
                error.message(&SessionCreatorError::DuplicateParticipant.message()),
                "session creator build: duplicate participant mailbox public key"
            );
        }
        Ok(_) => panic!("two participants share a key"),
    }
}

#[test]
fn delivery_is_acknowledged_once_and_by_participants_alone() {
    let mut directory = Directory::new();
    let mut registry = InMemoryMultipartyRegistry::new();
    let (_, one) = met(&mut directory, &mut registry);
    met(&mut directory, &mut registry);
    let make = |registry: &InMemoryMultipartyRegistry| {
        SessionCreatorBuilder::build_and_promote(registry, parameters()).ok().expect("two")
    };
    let stranger = HpkeKeyPair::gen_keypair().public;
    let first = one.context.responder_key.public;

    let promotion = make(&registry);
    let (_, creator) = promotion.save(&mut registry).expect("saved");
    let context = creator.context.clone();
    let fresh = || multiparty_payjoin::multiparty::SessionCreator {
        state: multiparty_payjoin::multiparty::CollectedSessions {},
        context: context.clone(),
    };
    match fresh().delivery_transition(stranger, Ok(())).0 {
        Err(EventfulError::Fatal(_, error)) => assert_eq!(
            error,
            SessionCreatorSessionError(InternalSessionCreatorSessionError::UnknownParticipant)
        ),
        _ => panic!("a stranger is refused"),
    }
    let next = match fresh().delivery_transition(first, Ok(())).0 {
        Ok(done) => match done.outcome {
            ParametersDelivery::Collecting(next) => next,
            ParametersDelivery::Distributed(_) => panic!("one is still to be served"),
        },
        Err(_) => panic!("delivery was due"),
    };
    match next.delivery_transition(first, Ok(())).0 {
        Err(EventfulError::Fatal(_, error)) => {
            assert_eq!(
                error,
                SessionCreatorSessionError(InternalSessionCreatorSessionError::AlreadyDelivered)
            );
            assert_eq!(
                error.message(),
                "session parameters already delivered to participant"
            );
        }
        _ => panic!("a delivery is acknowledged once"),
    }
    let failed = DirectoryResponseError::UnexpectedStatusCode(500);
    assert!(matches!(
        fresh().delivery_transition(first, Err(failed)).0,
        Err(EventfulError::Transient(_))
    ));
    let refused = DirectoryResponseError::UnexpectedStatusCode(400);
    assert!(matches!(
        fresh().delivery_transition(first, Err(refused)).0,
        Err(EventfulError::Fatal(_, _))
    ));
    assert_eq!(
        fresh().next_session_parameters_distribution_message("relay").err(),
        Some(SessionCreatorError::ParseUrl(UrlParseError::MissingScheme))
    );
}

fn participant(directory: &mut Directory) -> Participant<HasSessionParameters> {
    let mut registry = InMemoryMultipartyRegistry::new();
    let handle = registry.new_session().expect("a log");
    let initiator = initiator(directory);
    let waiting = responder_for(&initiator).context.to_participant();
    let transition = waiting.poll_transition(Ok(Some(parameters()))).ok().expect("adopted");
    transition.save(&mut registry, handle).expect("saved");
    match replay_event_log(registry.persister_mut(1)).ok().expect("replays").0 {
        MultipartySession::ParticipantHasSessionParameters(participant) => participant,
        _ => panic!("the participant has session parameters"),
    }
}

fn input(signed: bool) -> InputPair {
    InputPair {
        txin: TxIn {
            previous_output: OutPoint { txid: [7u8; 32], vout: 1 },
            script_sig: if signed { vec![1] } else { vec![] },
            sequence: 0xffff_fffd,
            witness: vec![],
        },
    }
}

fn output() -> TxOut {
    TxOut { value: 1234, script_pubkey: vec![0x51] }
}

fn executing(execution: PlanExecution) -> Participant<HasPlan> {
    match execution {
        PlanExecution::Executing(next) => next,
        PlanExecution::Executed(_) => panic!("there are actions left"),
    }
}

#[test]
fn plan_is_executed_action_by_action() {
    let mut directory = Directory::new();
    let participant = participant(&mut directory);
    let mut log = InMemoryPersister::new();
    log.save_event(MultipartySessionEvent::SessionParametersAdopted(participant.context.clone()))
        .expect("saved");
    let planned = participant
        .generate_plan(vec![input(false)], vec![output()])
        .save(&mut log)
        .expect("saved");
    assert_eq!(planned.state.plan.len(), 2);

    let (request, ctx) = planned.execute_action_from_plan(RELAY).expect("request");
    let response = directory.answer(&request);
    let planned =
        executing(planned.process_action_response(&response, ctx).save(&mut log).expect("saved"));
    assert_eq!(planned.state.plan_cursor, 1);

    let (request, ctx) = planned.create_read_from_directory_request(RELAY).expect("request");
    let response = directory.answer(&request);
    let messages = planned.process_read_from_directory_response(&response, ctx).expect("messages");
    assert_eq!(messages.len(), 1);
    assert_eq!(messages[0].reply_key, planned.context.session_shared_keypair().public);
    assert_eq!(
        messages[0].plaintext,
        trimmed(Action::RegisterInput(input(false)).as_psbt_fragment())
    );
    let peer = Participant::from_adopted_context(planned.context.clone());
    let (request, ctx) = peer.create_read_from_directory_request(RELAY).expect("request");
    let response = directory.answer(&request);
    assert_eq!(peer.process_read_from_directory_response(&response, ctx), Ok(messages));

    let (request, ctx) = planned.execute_action_from_plan(RELAY).expect("request");
    let response = directory.answer(&request);
    let done = planned.process_action_response(&response, ctx).save(&mut log).expect("saved");
    assert!(matches!(done, PlanExecution::Executed(_)));
    assert!(matches!(
        replay_event_log(&mut log).ok().expect("replays").0,
        MultipartySession::ParticipantPlanExecuted(_)
    ));
}

fn trimmed(mut bytes: Vec<u8>) -> Vec<u8> {
    while bytes.last() == Some(&0) {
        bytes.pop();
    }
    bytes
}

#[test]
fn failed_actions() {
    let mut directory = Directory::new();
    let participant = participant(&mut directory);
    let mut log = InMemoryPersister::new();
    let planned = participant.generate_plan(vec![], vec![output()]).save(&mut log).expect("saved");
    let failed = DirectoryResponseError::UnexpectedStatusCode(500);
    assert!(matches!(
        planned.action_transition(Err(failed)).0,
        Err(EventfulError::Transient(ParticipantError::DirectoryResponse(_)))
    ));
    let refused = DirectoryResponseError::UnexpectedStatusCode(400);
    assert!(matches!(
        planned.action_transition(Err(refused)).0,
        Err(EventfulError::Fatal(MultipartySessionEvent::Closed(_), _))
    ));
}

#[test]
fn session_from_an_execution() {
    let mut directory = Directory::new();
    let participant = participant(&mut directory);
    let mut log = InMemoryPersister::new();
    let planned = participant.generate_plan(vec![], vec![output()]).save(&mut log).expect("saved");
    let execution = planned.action_transition(Ok(())).0.ok().expect("carried out").outcome;
    assert!(matches!(
        MultipartySession::from(execution),
        MultipartySession::ParticipantPlanExecuted(_)
    ));
}

#[test]
fn psbt_fragment_holds_the_contribution_alone() {
    let bytes = Action::RegisterInput(input(false)).as_psbt_fragment();
    let psbt = bitcoin::Psbt::deserialize(&bytes).expect("a PSBT");
    assert_eq!(psbt.unsigned_tx.version, bitcoin::transaction::Version::TWO);
    assert_eq!(psbt.unsigned_tx.lock_time, bitcoin::absolute::LockTime::ZERO);
    assert_eq!(psbt.unsigned_tx.input.len(), 1);
    assert_eq!(psbt.unsigned_tx.input[0].previous_output.vout, 1);
    assert_eq!(psbt.unsigned_tx.input[0].sequence, bitcoin::Sequence(0xffff_fffd));
    assert!(psbt.unsigned_tx.output.is_empty());

    let bytes = Action::RegisterOutput(output()).as_psbt_fragment();
    assert_eq!(&bytes[..5], b"psbt\xff");
    let value = 1234u64.to_le_bytes();
    assert!(bytes.windows(8).any(|w| w == value));
}

#[test]
fn participants_share_one_mailbox() {
    let mut directory = Directory::new();
    let one = participant(&mut directory);
    let mut two = participant(&mut directory);
    assert_ne!(
        one.context.session_shared_mailbox_id(),
        two.context.session_shared_mailbox_id()
    );
    two.context.session_parameters = one.context.session_parameters.clone();
    assert_eq!(
        one.context.session_shared_mailbox_id(),
        two.context.session_shared_mailbox_id()
    );
    assert_eq!(
        one.context.session_shared_keypair().public,
        two.context.session_shared_keypair().public
    );
}

#[test]
fn empty_plan_has_no_action() {
    let plan = Plan(std::sync::Arc::new(vec![]));
    assert_eq!(plan.len(), 0);
    assert!(plan.action(0).is_none());
}
