use multiparty_payjoin::hpke::HpkeKeyPair;
use multiparty_payjoin::multiparty::initiator::session as initiator_log;
use multiparty_payjoin::multiparty::participant::awaiting::AwaitingParticipantContext;
use multiparty_payjoin::multiparty::persist::{
    GraduationError, MultipartyGraduationTransition, MultipartySessionRegistry,
    ParticipantParametersAdoption, SessionParametersPollTransition,
};
use multiparty_payjoin::multiparty::session::{
    collect_open_sessions_awaiting_parameters, replay_event_log, CollectAwaitingParametersError,
    MultipartySessionEvent, MultipartySessionOutcome,
};
use multiparty_payjoin::multiparty::session_parameters::{InputScriptType, SessionParameters};
use multiparty_payjoin::ohttp_directory::test_ohttp_key_config;
use multiparty_payjoin::persist::{
    LogOperation, NextStateTransition, ReplayError, SessionPersister,
};
use multiparty_payjoin::url::Url;

/// Which operation of a log failed.
#[derive(Debug, Clone, Copy, PartialEq, Eq)]
enum Fault {
    Save,
    Load,
    Close,
}

/// A log in memory, some operations of which fail.
#[derive(Debug)]
struct FaultyLog<E> {
    log: Vec<E>,
    is_closed: bool,
    faults: Vec<Fault>,
}

impl<E> FaultyLog<E> {
    fn with(faults: &[Fault]) -> Self {
        FaultyLog { log: vec![], is_closed: false, faults: faults.to_vec() }
    }

    fn fail(&self, fault: Fault) -> Result<(), Fault> {
        if self.faults.contains(&fault) {
            Err(fault)
        } else {
            Ok(())
        }
    }
}

impl<E: Clone> SessionPersister for FaultyLog<E> {
    type SessionEvent = E;
    type InternalStorageError = Fault;

    // The view of the log is there for proofs alone: nothing calls it at run time.
    fn events(&self) -> vstd::seq::Seq<E> {
        unreachable!()
    }

    fn closed(&self) -> bool {
        self.is_closed
    }

    fn reliable(&self) -> bool {
        self.faults.is_empty()
    }

    fn failed(_: LogOperation, _: Fault) -> bool {
        true
    }

    fn save_event(&mut self, event: E) -> Result<(), Fault> {
        self.fail(Fault::Save)?;
        self.log.push(event);
        Ok(())
    }

    fn load(&self) -> Result<Vec<E>, Fault> {
        self.fail(Fault::Load)?;
        Ok(self.log.clone())
    }

    fn close(&mut self) -> Result<(), Fault> {
        self.fail(Fault::Close)?;
        self.is_closed = true;
        Ok(())
    }
}

/// A registry of such logs; the faults of the next log to be made.
struct Registry {
    logs: Vec<FaultyLog<MultipartySessionEvent>>,
    next: Vec<Fault>,
}

impl MultipartySessionRegistry for Registry {
    type Error = ();
    type Persister = FaultyLog<MultipartySessionEvent>;

    // The view of the registry is there for proofs alone: nothing calls it at run time.
    fn persisters(&self) -> vstd::seq::Seq<FaultyLog<MultipartySessionEvent>> {
        unreachable!()
    }

    fn reliable(&self) -> bool {
        false
    }

    fn lemma_reliable(&self) {}

    fn list_open(&self) -> Result<Vec<usize>, ()> {
        Ok((0..self.logs.len()).filter(|i| !self.logs[*i].is_closed).collect())
    }

    fn new_session(&mut self) -> Result<usize, ()> {
        self.logs.push(FaultyLog::with(&self.next));
        Ok(self.logs.len() - 1)
    }

    fn persister(&self, handle: usize) -> &Self::Persister {
        &self.logs[handle]
    }

    fn persister_mut(&mut self, handle: usize) -> &mut Self::Persister {
        &mut self.logs[handle]
    }
}

fn closed() -> MultipartySessionEvent {
    MultipartySessionEvent::Closed(MultipartySessionOutcome::Failure)
}

fn first() -> MultipartySessionEvent {
    MultipartySessionEvent::PlanExecuted(7)
}

fn graduation(from: Vec<usize>) -> MultipartyGraduationTransition<u8> {
    MultipartyGraduationTransition::new(from, closed(), NextStateTransition::success(first(), 3))
}

#[test]
fn graduation_ends_at_the_first_failure() {
    for (fault, written) in [(Fault::Save, vec![]), (Fault::Close, vec![closed()])] {
        let mut registry = Registry {
            logs: vec![
                FaultyLog::with(&[]),
                FaultyLog::with(&[fault]),
                FaultyLog::with(&[]),
                FaultyLog::with(&[]),
            ],
            next: vec![],
        };
        assert!(matches!(
            graduation(vec![0, 1, 2]).save(&mut registry),
            Err(GraduationError::Storage(e)) if e == fault
        ));
        assert_eq!(registry.logs[4].log, vec![first()]);
        assert!(!registry.logs[4].is_closed);
        assert_eq!(registry.logs[0].log, vec![closed()]);
        assert!(registry.logs[0].is_closed);
        assert_eq!(registry.logs[1].log, written);
        assert!(!registry.logs[1].is_closed);
        for untouched in [2usize, 3] {
            assert!(registry.logs[untouched].log.is_empty());
            assert!(!registry.logs[untouched].is_closed);
        }
    }
}

#[test]
fn nothing_ends_before_the_successor_is_saved() {
    let mut registry = Registry { logs: vec![FaultyLog::with(&[])], next: vec![Fault::Save] };
    assert!(matches!(
        graduation(vec![0]).save(&mut registry),
        Err(GraduationError::Storage(Fault::Save))
    ));
    assert_eq!(registry.logs.len(), 2);
    assert!(registry.logs[1].log.is_empty());
    assert!(registry.logs[0].log.is_empty());
    assert!(!registry.logs[0].is_closed);
}

#[test]
fn adoption_that_cannot_close_the_old_log() {
    let key = HpkeKeyPair::gen_keypair();
    let parameters =
        SessionParameters::new(2, 0, 250, 0, vec![InputScriptType::P2tr], None);
    let directory = Url::parse("https://payjo.in").expect("a URL");
    let adoption = ParticipantParametersAdoption {
        participant_context: AwaitingParticipantContext::new(
            key,
            &directory,
            test_ohttp_key_config().ohttp_keys(),
            key.public,
        ),
        session_parameters: parameters.clone(),
    };
    let mut registry = Registry {
        logs: vec![FaultyLog::with(&[]), FaultyLog::with(&[Fault::Close])],
        next: vec![],
    };
    assert!(matches!(
        SessionParametersPollTransition::Adoption(adoption).save(&mut registry, 1),
        Err(GraduationError::Storage(Fault::Close))
    ));
    assert!(matches!(
        registry.logs[2].log[..],
        [MultipartySessionEvent::SessionParametersAdopted(_)]
    ));
    assert_eq!(
        registry.logs[1].log,
        vec![MultipartySessionEvent::Closed(MultipartySessionOutcome::Graduated(parameters))]
    );
    assert!(!registry.logs[1].is_closed);
    assert!(registry.logs[0].log.is_empty());
}

#[test]
fn replay_tells_what_went_wrong_with_the_storage() {
    let mut unread: FaultyLog<MultipartySessionEvent> = FaultyLog::with(&[Fault::Load]);
    assert!(matches!(
        replay_event_log(&mut unread),
        Err(ReplayError::PersistenceFailure(Fault::Load))
    ));
    assert!(unread.is_closed);

    let mut open: FaultyLog<MultipartySessionEvent> = FaultyLog::with(&[Fault::Close]);
    assert!(matches!(
        replay_event_log(&mut open),
        Err(ReplayError::PersistenceFailure(Fault::Close))
    ));
    assert!(!open.is_closed);

    let registry = Registry { logs: vec![FaultyLog::with(&[Fault::Load])], next: vec![] };
    assert!(matches!(
        collect_open_sessions_awaiting_parameters(&registry),
        Err(CollectAwaitingParametersError::Replay(ReplayError::PersistenceFailure(Fault::Load)))
    ));
}

#[test]
fn role_log_that_cannot_be_read_is_not_closed() {
    let mut unread: FaultyLog<initiator_log::InitiatorEvent> = FaultyLog::with(&[Fault::Load]);
    assert!(matches!(
        initiator_log::replay_event_log(&mut unread),
        Err(ReplayError::PersistenceFailure(Fault::Load))
    ));
    assert!(!unread.is_closed);

    let mut empty: FaultyLog<initiator_log::InitiatorEvent> = FaultyLog::with(&[]);
    assert!(matches!(
        initiator_log::replay_event_log(&mut empty),
        Err(ReplayError::NoEvents)
    ));
    assert!(empty.is_closed);

    let mut open: FaultyLog<initiator_log::InitiatorEvent> = FaultyLog::with(&[Fault::Close]);
    assert!(matches!(
        initiator_log::replay_event_log(&mut open),
        Err(ReplayError::PersistenceFailure(Fault::Close))
    ));
    assert!(!open.is_closed);
}
