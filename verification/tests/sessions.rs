use multiparty_payjoin::hpke::{HpkeKeyPair, HpkePublicKey};
use multiparty_payjoin::multiparty::initiator::session as initiator_log;
use multiparty_payjoin::multiparty::participant::awaiting::AwaitingParticipantContext;
use multiparty_payjoin::multiparty::persist::{
    GraduationError, InMemoryMultipartyRegistry, MultipartySessionRegistry,
};
use multiparty_payjoin::multiparty::responder::session as responder_log;
use multiparty_payjoin::multiparty::role_log::is_role_replayable;
use multiparty_payjoin::multiparty::session::{
    collect_open_sessions_awaiting_parameters, is_replayable, registry_is_replayable,
    replay_event_log, replay_list, CollectAwaitingParametersError, MultipartySession,
    MultipartySessionEvent, MultipartySessionOutcome,
};
use multiparty_payjoin::multiparty::session_creator::session as creator_log;
use multiparty_payjoin::multiparty::session_parameters::{InputScriptType, SessionParameters};
use multiparty_payjoin::multiparty::uri::build_multiparty_pj_uri;
use multiparty_payjoin::multiparty::{
    InitiatorBuilder, InitiatorContext, ParticipantContext, PendingParticipant, Plan,
    ResponderBuilder, ResponderContext, SessionCreatorContext,
};
use multiparty_payjoin::ohttp::OhttpKeys;
use multiparty_payjoin::ohttp_directory::test_ohttp_key_config;
use multiparty_payjoin::persist::{InMemoryPersister, ReplayError, SessionPersister};
use multiparty_payjoin::uri::PjParam;
use multiparty_payjoin::url::Url;

fn keys() -> OhttpKeys {
    test_ohttp_key_config().ohttp_keys()
}

fn url() -> Url {
    Url::parse("https://payjo.in").expect("a URL")
}

fn key() -> HpkePublicKey {
    HpkeKeyPair::gen_keypair().public
}

fn parameters() -> SessionParameters {
    SessionParameters::new(2, 0, 250, 0, vec![InputScriptType::P2tr], Some(9))
}

fn initiator_context() -> InitiatorContext {
    InitiatorContext {
        initiator_key: HpkeKeyPair::gen_keypair(),
        directory: url(),
        ohttp_keys: keys(),
        responder_public_key: None,
    }
}

fn responder_context() -> ResponderContext {
    let mut log = InMemoryPersister::new();
    let initiator =
        InitiatorBuilder::new("https://payjo.in", keys()).unwrap().build().save(&mut log).unwrap();
    let uri = build_multiparty_pj_uri(initiator.pj_uri().expect("an invitation").pj_param());
    let mut log = InMemoryPersister::new();
    ResponderBuilder::from_uri(uri).ok().expect("accepted").save(&mut log).unwrap().context
}

fn participant_context() -> ParticipantContext {
    ParticipantContext {
        directory: url(),
        ohttp_keys: keys(),
        session_parameters: parameters(),
    }
}

fn creator_context(keys_of: &[HpkePublicKey]) -> SessionCreatorContext {
    SessionCreatorContext {
        creator_key: HpkeKeyPair::gen_keypair(),
        directory: url(),
        ohttp_keys: keys(),
        session_parameters: parameters(),
        participants: std::sync::Arc::new(
            keys_of
                .iter()
                .map(|k| PendingParticipant { public_key: *k, parameters_delivered: false })
                .collect(),
        ),
    }
}

fn log_of(events: Vec<MultipartySessionEvent>) -> InMemoryPersister<MultipartySessionEvent> {
    let mut log = InMemoryPersister::new();
    for event in events {
        log.save_event(event).expect("saved");
    }
    log
}

#[test]
fn replay_of_each_role() {
    let reply = key();
    let cases = vec![
        vec![MultipartySessionEvent::InitiatorCreated(initiator_context())],
        vec![
            MultipartySessionEvent::InitiatorCreated(initiator_context()),
            MultipartySessionEvent::InitiatorRetrievedReplyKey(reply),
        ],
        vec![
            MultipartySessionEvent::ResponderCreated(responder_context()),
            MultipartySessionEvent::ResponderSentReplyKey,
        ],
        vec![MultipartySessionEvent::SessionParametersAdopted(participant_context())],
        vec![
            MultipartySessionEvent::SessionParametersAdopted(participant_context()),
            MultipartySessionEvent::PlanGenerated(Plan(std::sync::Arc::new(vec![]))),
            MultipartySessionEvent::PlanExecuted(1),
        ],
    ];
    let mut states = Vec::new();
    for events in cases {
        assert!(is_replayable(&events));
        states.push(replay_list::<()>(&events).ok().expect("replays"));
    }
    assert!(matches!(states[0], MultipartySession::InitiatorInitialized(_)));
    assert!(states[1].is_pending_parameters());
    assert!(states[2].is_pending_parameters());
    assert!(matches!(states[3], MultipartySession::ParticipantHasSessionParameters(_)));
    assert!(matches!(states[4], MultipartySession::ParticipantPlanExecuted(_)));
}

#[test]
fn replay_failures_close_the_log() {
    let mut empty = log_of(vec![]);
    assert!(matches!(replay_event_log(&mut empty), Err(ReplayError::NoEvents)));
    assert!(empty.is_closed());

    let mut headless = log_of(vec![MultipartySessionEvent::ResponderSentReplyKey]);
    assert!(matches!(
        replay_event_log(&mut headless),
        Err(ReplayError::InvalidEvent(MultipartySessionEvent::ResponderSentReplyKey, None))
    ));
    assert!(headless.is_closed());

    let mut wrong = log_of(vec![
        MultipartySessionEvent::InitiatorCreated(initiator_context()),
        MultipartySessionEvent::PlanExecuted(1),
    ]);
    assert!(matches!(
        replay_event_log(&mut wrong),
        Err(ReplayError::InvalidEvent(
            MultipartySessionEvent::PlanExecuted(1),
            Some(MultipartySession::InitiatorInitialized(_))
        ))
    ));

    let mut context = responder_context();
    context.pj_param = PjParam::parse("https://example.com/pj").expect("a v1 parameter");
    let mut v1 = log_of(vec![
        MultipartySessionEvent::ResponderCreated(context),
        MultipartySessionEvent::ResponderSentReplyKey,
    ]);
    assert!(is_replayable(v1.log()));
    assert!(matches!(
        replay_event_log(&mut v1),
        Err(ReplayError::InvalidEvent(
            MultipartySessionEvent::ResponderSentReplyKey,
            Some(MultipartySession::ResponderInitialized(_))
        ))
    ));
    assert!(v1.is_closed());
}

#[test]
fn closing_ends_a_session() {
    let closed = MultipartySessionEvent::closed(MultipartySessionOutcome::Failure);
    let events = vec![MultipartySessionEvent::InitiatorCreated(initiator_context()), closed];
    assert!(matches!(
        replay_list::<()>(&events),
        Ok(MultipartySession::Closed(MultipartySessionOutcome::Failure))
    ));
    let after = vec![
        MultipartySessionEvent::closed(MultipartySessionOutcome::Failure),
        MultipartySessionEvent::ResponderSentReplyKey,
    ];
    assert!(matches!(
        replay_list::<()>(&after),
        Err(ReplayError::InvalidEvent(_, Some(MultipartySession::Closed(_))))
    ));
}

#[test]
fn creator_log_replays_deliveries() {
    let (one, two) = (key(), key());
    let created = MultipartySessionEvent::SessionCreatorCreated(creator_context(&[one, two]));
    let delivered = |k: HpkePublicKey| MultipartySessionEvent::SessionCreatorParametersDeliveredTo(k);
    let all = MultipartySessionEvent::SessionCreatorAllParametersDelivered;

    let events = vec![created.clone(), delivered(two), delivered(one), all.clone()];
    assert!(is_replayable(&events));
    assert!(matches!(
        replay_list::<()>(&events),
        Ok(MultipartySession::SessionCreatorParametersDistributed(_))
    ));
    assert!(!is_replayable(&vec![created.clone(), delivered(key())]));
    assert!(!is_replayable(&vec![created.clone(), delivered(one), delivered(one)]));
    assert!(!is_replayable(&vec![created, delivered(one), all]));
}

#[test]
fn collecting_skips_closed_empty_and_other_logs() {
    let mut registry = InMemoryMultipartyRegistry::new();
    let awaiting = registry.new_session().expect("a log");
    let reply = key();
    let log = registry.persister_mut(awaiting);
    log.save_event(MultipartySessionEvent::InitiatorCreated(initiator_context())).unwrap();
    log.save_event(MultipartySessionEvent::InitiatorRetrievedReplyKey(reply)).unwrap();
    registry.new_session().expect("an empty log");
    let other = registry.new_session().expect("a log");
    registry
        .persister_mut(other)
        .save_event(MultipartySessionEvent::InitiatorCreated(initiator_context()))
        .unwrap();
    let closed = registry.new_session().expect("a log");
    let log = registry.persister_mut(closed);
    log.save_event(MultipartySessionEvent::InitiatorCreated(initiator_context())).unwrap();
    log.save_event(MultipartySessionEvent::InitiatorRetrievedReplyKey(key())).unwrap();
    log.close().unwrap();

    assert!(registry_is_replayable(&registry));
    let found = collect_open_sessions_awaiting_parameters(&registry).ok().expect("collected");
    assert_eq!(found.len(), 1);
    assert_eq!(*found[0].parameters_mailbox_public_key(), reply);
}

#[test]
fn collecting_reports_a_log_that_does_not_replay() {
    let mut registry = InMemoryMultipartyRegistry::new();
    let handle = registry.new_session().expect("a log");
    registry
        .persister_mut(handle)
        .save_event(MultipartySessionEvent::ResponderSentReplyKey)
        .unwrap();
    // What stands behind the log that does not replay is not read.
    let behind = registry.new_session().expect("a log");
    let log = registry.persister_mut(behind);
    log.save_event(MultipartySessionEvent::SessionCreatorCreated(creator_context(&[key()])))
        .unwrap();
    log.save_event(MultipartySessionEvent::SessionCreatorParametersDeliveredTo(key())).unwrap();
    assert!(!is_replayable(log.log()));
    assert!(registry_is_replayable(&registry));
    match collect_open_sessions_awaiting_parameters(&registry) {
        Err(error) => {
            assert!(matches!(
                error,
                CollectAwaitingParametersError::Replay(ReplayError::InvalidEvent(_, None))
            ));
            assert_eq!(error.message("cause"), "replay error: cause");
        }
        Ok(_) => panic!("the log does not replay"),
    }
}

#[test]
fn graduation_error_messages() {
    let error: GraduationError<(), ()> = GraduationError::IncompleteAwaitingRegistry;
    assert_eq!(
        error.message(""),
        "registry is missing an open awaiting log for a session creator participant"
    );
    let error: GraduationError<(), ()> = GraduationError::Registry(());
    assert_eq!(error.message("full"), "registry error: full");
    let error: GraduationError<(), ()> = GraduationError::Storage(());
    assert_eq!(error.message("full"), "storage error: full");
}

#[test]
fn initiator_log_replays() {
    let context = initiator_context();
    let reply = key();
    let mut log = InMemoryPersister::new();
    log.save_event(initiator_log::InitiatorEvent::Created(context.clone())).unwrap();
    let (session, history) = initiator_log::replay_event_log(&mut log).ok().expect("replays");
    assert!(matches!(session, initiator_log::InitiatorSession::Initialized(_)));
    assert_eq!(history.status(), initiator_log::InitiatorStatus::Active);
    assert_eq!(history.reply_key(), None);

    log.save_event(initiator_log::InitiatorEvent::RetrievedReplyKey(reply)).unwrap();
    let (session, history) = initiator_log::replay_event_log(&mut log).ok().expect("replays");
    match session {
        initiator_log::InitiatorSession::HasReplyKey(state) => {
            assert_eq!(state.context.responder_public_key, Some(reply));
            assert_eq!(
                state.context.session_parameters_mailbox_id(),
                Some(reply.short_id())
            );
        }
        _ => panic!("the reply key was retrieved"),
    }
    assert_eq!(history.status(), initiator_log::InitiatorStatus::HasReplyKey);
    assert_eq!(history.reply_key(), Some(reply));
    assert_eq!(
        history.session_context(),
        InitiatorContext { responder_public_key: Some(reply), ..context }
    );

    log.save_event(initiator_log::InitiatorEvent::Closed(initiator_log::InitiatorOutcome::Failure))
        .unwrap();
    let (session, history) = initiator_log::replay_event_log(&mut log).ok().expect("replays");
    assert!(matches!(session, initiator_log::InitiatorSession::Closed(_)));
    assert_eq!(history.status(), initiator_log::InitiatorStatus::Failed);

    log.save_event(initiator_log::InitiatorEvent::RetrievedReplyKey(reply)).unwrap();
    assert!(matches!(
        initiator_log::replay_event_log(&mut log),
        Err(ReplayError::InvalidEvent(_, Some(initiator_log::InitiatorSession::Closed(_))))
    ));
    assert!(log.is_closed());
}

#[test]
fn responder_log_replays() {
    let context = responder_context();
    let reply = context.responder_key.public;
    let mut log = InMemoryPersister::new();
    assert!(matches!(
        responder_log::replay_event_log(&mut log),
        Err(ReplayError::NoEvents)
    ));
    let mut log = InMemoryPersister::new();
    log.save_event(responder_log::ResponderEvent::Created(context.clone())).unwrap();
    log.save_event(responder_log::ResponderEvent::SentReplyKey(reply)).unwrap();
    let (session, history) = responder_log::replay_event_log(&mut log).ok().expect("replays");
    assert!(matches!(session, responder_log::ResponderSession::SentReplyKey(_)));
    assert_eq!(history.status(), responder_log::ResponderStatus::SentReplyKey);
    assert_eq!(history.reply_key(), Some(reply));
    assert_eq!(history.session_context().uri(), context.uri());
}

#[test]
fn session_creator_log_replays() {
    let (one, two) = (key(), key());
    let created = creator_log::SessionCreatorEvent::Created(creator_context(&[one, two]));
    let delivered = |k: HpkePublicKey| creator_log::SessionCreatorEvent::ParametersDeliveredTo(k);
    let mut log = InMemoryPersister::new();
    log.save_event(created.clone()).unwrap();
    log.save_event(delivered(one)).unwrap();
    let (session, _) = creator_log::replay_event_log(&mut log).ok().expect("replays");
    assert!(matches!(session, creator_log::SessionCreatorSession::CollectedSessions(_)));
    log.save_event(delivered(two)).unwrap();
    let (session, _) = creator_log::replay_event_log(&mut log).ok().expect("replays");
    assert!(matches!(session, creator_log::SessionCreatorSession::ParametersDistributed(_)));

    let twice = vec![created.clone(), delivered(one), delivered(one)];
    assert!(!is_role_replayable::<creator_log::SessionCreatorSession>(&twice));
    let once = vec![created, delivered(one)];
    assert!(is_role_replayable::<creator_log::SessionCreatorSession>(&once));
}

#[test]
fn awaiting_context_keeps_the_origin_of_its_directory() {
    let directory = Url::parse("https://payjo.in/ID1QQQ#fragment").expect("a URL");
    let context =
        AwaitingParticipantContext::new(HpkeKeyPair::gen_keypair(), &directory, keys(), key());
    assert_eq!(context.directory.as_string(), "https://payjo.in/");
}
