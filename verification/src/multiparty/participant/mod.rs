//! Multiparty participants: what every role becomes once it has exchanged keys.

pub mod awaiting;
pub mod error;
pub mod plan;
pub mod with_parameters;

pub use awaiting::{AwaitingParticipantContext, ParticipantAwaitingSessionParameters};
pub use error::{ParticipantError, ParticipantSessionError};
pub use plan::Plan;
pub use with_parameters::{
    HasPlan, HasSessionParameters, Participant, ParticipantContext, PlanExecuted, PlanExecution,
    PlanExecutionTransition,
};
