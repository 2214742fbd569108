//! Multiparty Payjoin sessions.
//!
//! An initiator invites responders with a URI and waits for their reply keys; a responder accepts
//! an invitation and sends its reply key. Both then are participants that await session
//! parameters, which a session creator fixes and delivers. Every role writes what happens to an
//! event log, and is rebuilt by replaying it.

pub mod initiator;
pub mod linked_mailbox;
pub mod participant;
pub mod persist;
pub mod responder;
pub mod role_log;
pub mod session;
pub mod session_creator;
pub mod session_parameters;
pub mod uri;

pub use initiator::{
    Initialized as InitiatorInitialized, Initiator, InitiatorBuilder, InitiatorContext,
    InitiatorError, InitiatorSessionError,
};
pub use participant::{
    AwaitingParticipantContext, HasPlan, HasSessionParameters, Participant,
    ParticipantAwaitingSessionParameters, ParticipantContext, ParticipantError,
    ParticipantSessionError, Plan, PlanExecuted, PlanExecution, PlanExecutionTransition,
};
pub use persist::{
    GraduationError, InMemoryMultipartyRegistry, MultipartyGraduationTransition,
    MultipartySessionRegistry, ParticipantParametersAdoption, RegistryError,
    SessionParametersPollFailure, SessionParametersPollTransition,
};
pub use responder::{
    Initialized as ResponderInitialized, Responder, ResponderBuilder, ResponderContext,
    ResponderError, ResponderSessionError,
};
pub use session::{
    collect_open_sessions_awaiting_parameters,
    collect_open_sessions_awaiting_parameters_with_persisters, replay_event_log,
    CollectAwaitingParametersError, MultipartySession, MultipartySessionEvent,
    MultipartySessionOutcome, SessionHistory, SessionStatus,
};
pub use session_creator::{
    CollectedSessions, ParametersDelivery, ParametersDistributed, ParametersDistributionTransition,
    PendingParticipant, SessionCreator, SessionCreatorBuilder, SessionCreatorContext,
    SessionCreatorError, SessionCreatorPromoteError, SessionCreatorSessionError,
    SessionParametersDistributionMessage,
};
pub use session_parameters::{
    InputScriptType, SessionParameters, SessionParametersError, SESSION_SECRET_LEN,
};
pub use uri::{build_multiparty_pj_uri, MultipartyPjUri, MultipartyUriError};
