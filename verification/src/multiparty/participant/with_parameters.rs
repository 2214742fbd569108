//! Participants that have adopted session parameters.
use vstd::prelude::*;
use vstd::std_specs::convert::FromSpecImpl;

use crate::append_mailbox::{
    append_request, append_request_due, frame_messages, frames_of, law_append_adds_one_message,
    message_views, process_read_response, read_outcome, read_request, read_request_due,
    DecryptedMessage, MailboxCtx, MailboxError,
};
use crate::bytes::{lemma_padding_undoes_trim, without_trailing_zeros, zeros};
use crate::directory::ShortId;
use crate::hpke::{carries, hpke_derived_secret, hpke_public_of, HpkeKeyPair, HpkePublicKey};
use crate::multiparty::participant::error::ParticipantError;
use crate::multiparty::participant::plan::{Action, InputPair, Plan, PlanBuilder, TxOut};
use crate::multiparty::persist::{EventfulError, EventfulTransition};
use crate::multiparty::session::{
    step, MultipartySession, MultipartySessionEvent, MultipartySessionOutcome, SessionModel,
};
use crate::multiparty::session_parameters::SessionParameters;
use crate::ohttp::{
    directory_answer, get_outcome, post_outcome, process_post_res, DirectoryResponseError,
    OhttpKeys, Request,
};
use crate::persist::NextStateTransition;
use crate::url::Url;

verus! {

/// Persistent context for a multiparty participant after adopting session parameters.
#[derive(Debug, PartialEq, Eq)]
pub struct ParticipantContext {
    pub directory: Url,
    pub ohttp_keys: OhttpKeys,
    pub session_parameters: SessionParameters,
}

impl Clone for ParticipantContext {
    fn clone(&self) -> (r: Self)
        ensures
            r == *self,
    {
        ParticipantContext {
            directory: self.directory.clone(),
            ohttp_keys: self.ohttp_keys,
            session_parameters: self.session_parameters.clone(),
        }
    }
}

/// Multiparty participant state machine (post role bootstrap).
#[derive(Debug, PartialEq, Eq)]
pub struct Participant<State> {
    pub state: State,
    pub context: ParticipantContext,
}

/// The participant knows the session parameters.
#[derive(Debug, Clone, Copy, PartialEq, Eq)]
pub struct HasSessionParameters {}

/// The participant has a plan, and has executed the actions before the cursor.
#[derive(Debug, PartialEq, Eq)]
pub struct HasPlan {
    pub plan: Plan,
    pub plan_cursor: usize,
}

/// The participant has executed its plan.
#[derive(Debug, Clone, Copy, PartialEq, Eq)]
pub struct PlanExecuted {}

impl Participant<HasSessionParameters> {
    pub fn from_adopted_context(context: ParticipantContext) -> (r: Self)
        ensures
            r.context == context,
    {
        Self { state: HasSessionParameters {  }, context }
    }

    pub fn session_parameters(&self) -> (r: &SessionParameters)
        ensures
            *r == self.context.session_parameters,
    {
        &self.context.session_parameters
    }

    /// The session after a plan was made.
    pub fn apply_with_plan(self, plan: Plan) -> (r: MultipartySession)
        ensures
            r@ == SessionModel::ParticipantHasPlan(self.context, plan, 0),
    {
        MultipartySession::ParticipantHasPlan(
            Participant { state: HasPlan { plan, plan_cursor: 0 }, context: self.context },
        )
    }
}

/// The session of a participant whose cursor has moved: the plan is executed once the cursor is
/// past its last action.
pub open spec fn with_cursor(context: ParticipantContext, plan: Plan, plan_cursor: usize) -> SessionModel {
    if plan_cursor >= plan@.len() {
        SessionModel::ParticipantPlanExecuted(context)
    } else {
        SessionModel::ParticipantHasPlan(context, plan, plan_cursor)
    }
}

impl Participant<HasPlan> {
    /// The session after the cursor has moved.
    pub fn apply_with_plan_cursor(self, plan_cursor: usize) -> (r: MultipartySession)
        ensures
            r@ == with_cursor(self.context, self.state.plan, plan_cursor),
    {
        if plan_cursor >= self.state.plan.len() {
            return MultipartySession::ParticipantPlanExecuted(
                Participant { state: PlanExecuted {  }, context: self.context },
            );
        }
        MultipartySession::ParticipantHasPlan(
            Participant {
                state: HasPlan { plan: self.state.plan, plan_cursor },
                context: self.context,
            },
        )
    }
}

impl ParticipantContext {
    /// The secret key that all participants of the session share.
    pub open spec fn shared_secret(self) -> Seq<u8> {
        hpke_derived_secret(self.session_parameters.session_secret@)
    }

    /// Whether `key` is the public key that all participants of the session share.
    pub open spec fn is_shared_key(self, key: HpkePublicKey) -> bool {
        key.valid() && key@ == hpke_public_of(self.shared_secret())
    }

    /// The key pair that all participants of the session share, derived from the session secret.
    pub fn session_shared_keypair(&self) -> (r: HpkeKeyPair)
        ensures
            r.secret@ == self.shared_secret(),
            r.matched(),
            self.is_shared_key(r.public),
    {
        HpkeKeyPair::derive_keypair(&self.session_parameters.session_secret)
    }

    /// The mailbox that all participants of the session share.
    pub fn session_shared_mailbox_id(&self) -> (r: ShortId)
        ensures
            exists|key: HpkePublicKey|
                #![trigger self.is_shared_key(key)]
                self.is_shared_key(key) && r@ == key.spec_short_id(),
    {
        let keypair = self.session_shared_keypair();
        keypair.public_key().short_id()
    }
}

impl<State> Participant<State> {
    /// Create a request that reads the mailbox that all participants share.
    pub fn create_read_from_directory_request(&self, ohttp_relay: &str) -> (r: Result<
        (Request, MailboxCtx),
        MailboxError,
    >)
        ensures
            exists|key: HpkePublicKey|
                {
                    &&& #[trigger] self.context.is_shared_key(key)
                    &&& read_request_due(
                        self.context.ohttp_keys,
                        self.context.directory@,
                        ohttp_relay@,
                        key.spec_short_id(),
                        r,
                    )
                },
    {
        read_request(
            &self.context.ohttp_keys,
            &self.context.directory,
            ohttp_relay,
            &self.context.session_shared_mailbox_id(),
        )
    }

    /// Process the response to a read of the mailbox that all participants share.
    pub fn process_read_from_directory_response(&self, body: &[u8], context: MailboxCtx) -> (r:
        Result<Vec<DecryptedMessage>, MailboxError>)
        ensures
            match read_outcome(
                get_outcome(directory_answer(context.handler(), body@)),
                self.context.shared_secret(),
            ) {
                Ok(messages) => r is Ok && message_views(r->Ok_0@) == messages,
                Err(e) => r == Err::<Vec<DecryptedMessage>, _>(e),
            },
    {
        process_read_response(body, context, &self.context.session_shared_keypair())
    }
}

/// The actions of a plan that registers the given inputs, then the given outputs.
pub open spec fn plan_actions(inputs: Seq<InputPair>, outputs: Seq<TxOut>) -> Seq<Action> {
    inputs.map_values(|input: InputPair| Action::RegisterInput(input)) + outputs.map_values(
        |output: TxOut| Action::RegisterOutput(output),
    )
}

/// A plan registers every input and every output, each once and in order, and nothing else.
pub proof fn law_plan_registers_everything(inputs: Seq<InputPair>, outputs: Seq<TxOut>)
    ensures
        plan_actions(inputs, outputs).len() == inputs.len() + outputs.len(),
        forall|i: int|
            0 <= i < inputs.len() ==> #[trigger] plan_actions(inputs, outputs)[i]
                == Action::RegisterInput(inputs[i]),
        forall|j: int|
            0 <= j < outputs.len() ==> plan_actions(inputs, outputs)[inputs.len() + j]
                == Action::RegisterOutput(#[trigger] outputs[j]),
{
}

/// One more payment obligation is one more action at the end of the plan; the rest stays.
pub proof fn law_every_payment_is_planned(
    inputs: Seq<InputPair>,
    outputs: Seq<TxOut>,
    output: TxOut,
)
    ensures
        plan_actions(inputs, outputs.push(output)) == plan_actions(inputs, outputs).push(
            Action::RegisterOutput(output),
        ),
{
    assert(plan_actions(inputs, outputs.push(output)) =~= plan_actions(inputs, outputs).push(
        Action::RegisterOutput(output),
    ));
}

impl Participant<HasSessionParameters> {
    /// Make the initial plan: register every input, then every output.
    pub fn generate_plan(
        &self,
        candidate_inputs: Vec<InputPair>,
        payment_obligations: Vec<TxOut>,
    ) -> (r: NextStateTransition<MultipartySessionEvent, Participant<HasPlan>>)
        ensures
            r.spec_state().state.plan@ == plan_actions(candidate_inputs@, payment_obligations@),
            r.spec_state().state.plan@.len() == candidate_inputs@.len()
                + payment_obligations@.len(),
            forall|i: int|
                0 <= i < candidate_inputs@.len() ==> #[trigger] r.spec_state().state.plan@[i]
                    == Action::RegisterInput(candidate_inputs@[i]),
            forall|j: int|
                0 <= j < payment_obligations@.len()
                    ==> r.spec_state().state.plan@[candidate_inputs@.len() + j]
                    == Action::RegisterOutput(#[trigger] payment_obligations@[j]),
            r.spec_state().state.plan_cursor == 0,
            r.spec_state().context == self.context,
            r.spec_event() == MultipartySessionEvent::PlanGenerated(r.spec_state().state.plan),
            step(
                SessionModel::ParticipantHasSessionParameters(self.context),
                r.spec_event(),
            ) == Some(MultipartySession::ParticipantHasPlan(r.spec_state())@),
    {
        let ghost inputs = candidate_inputs@;
        let ghost outputs = payment_obligations@;
        let ghost first = inputs.map_values(|input: InputPair| Action::RegisterInput(input));
        let ghost second = outputs.map_values(|output: TxOut| Action::RegisterOutput(output));
        let mut plan = PlanBuilder::new();
        assert(plan.actions() =~= first.take(0));
        for input in it: candidate_inputs
            invariant
                it.seq() == inputs,
                first == inputs.map_values(|input: InputPair| Action::RegisterInput(input)),
                plan.actions() == first.take(it.index() as int),
        {
            plan = plan.add_input(input);
            assert(plan.actions() =~= first.take(it.index() + 1));
        }
        assert(first.take(inputs.len() as int) =~= first);
        assert(plan.actions() =~= first + second.take(0));
        for output in it: payment_obligations
            invariant
                it.seq() == outputs,
                second == outputs.map_values(|output: TxOut| Action::RegisterOutput(output)),
                plan.actions() == first + second.take(it.index() as int),
        {
            plan = plan.add_output(output);
            assert(plan.actions() =~= first + second.take(it.index() + 1));
        }
        assert(second.take(outputs.len() as int) =~= second);
        let plan = plan.build();
        NextStateTransition::success(
            MultipartySessionEvent::PlanGenerated(plan.clone()),
            Participant {
                state: HasPlan { plan, plan_cursor: 0 },
                context: self.context.clone(),
            },
        )
    }
}

/// What executing an action of the plan leads to.
#[derive(Debug, PartialEq, Eq)]
pub enum PlanExecution {
    Executing(Participant<HasPlan>),
    Executed(Participant<PlanExecuted>),
}

impl View for PlanExecution {
    type V = SessionModel;

    open spec fn view(&self) -> SessionModel {
        match self {
            PlanExecution::Executing(state) => MultipartySession::ParticipantHasPlan(*state)@,
            PlanExecution::Executed(state) => MultipartySession::ParticipantPlanExecuted(*state)@,
        }
    }
}

impl From<PlanExecution> for MultipartySession {
    fn from(execution: PlanExecution) -> (r: Self) {
        match execution {
            PlanExecution::Executing(state) => MultipartySession::ParticipantHasPlan(state),
            PlanExecution::Executed(state) => MultipartySession::ParticipantPlanExecuted(state),
        }
    }
}

impl FromSpecImpl<PlanExecution> for MultipartySession {
    open spec fn obeys_from_spec() -> bool {
        true
    }

    open spec fn from_spec(execution: PlanExecution) -> Self {
        match execution {
            PlanExecution::Executing(state) => MultipartySession::ParticipantHasPlan(state),
            PlanExecution::Executed(state) => MultipartySession::ParticipantPlanExecuted(state),
        }
    }
}

/// Persisted outcome of executing one action of the plan.
pub type PlanExecutionTransition = EventfulTransition<
    MultipartySessionEvent,
    PlanExecution,
    ParticipantError,
>;

/// Whether the directory's answer to an action ends in the transition it calls for: the cursor
/// moves, the attempt can be repeated, or the session ends.
pub open spec fn action_transition_due(
    participant: Participant<HasPlan>,
    answer: Result<(), DirectoryResponseError>,
    r: PlanExecutionTransition,
) -> bool {
    match answer {
        Ok(()) => {
            let cursor = (participant.state.plan_cursor + 1) as usize;
            &&& r.0 matches Ok(done) && done.events@ == seq![
                MultipartySessionEvent::PlanExecuted(cursor),
            ] && done.outcome@ == with_cursor(participant.context, participant.state.plan, cursor)
        },
        Err(e) => if e.spec_is_fatal() {
            r.0 matches Err(EventfulError::Fatal(event, error)) && event
                == MultipartySessionEvent::Closed(MultipartySessionOutcome::Failure) && error
                == ParticipantError::DirectoryResponse(e)
        } else {
            r.0 matches Err(EventfulError::Transient(error)) && error
                == ParticipantError::DirectoryResponse(e)
        },
    }
}

impl Participant<HasPlan> {
    /// Create the request that carries out the action at the cursor: it appends the serialized
    /// PSBT of the contribution to the mailbox that all participants share, sealed for the shared
    /// key.
    pub fn execute_action_from_plan(&self, ohttp_relay: &str) -> (r: Result<
        (Request, MailboxCtx),
        MailboxError,
    >)
        requires
            self.state.plan_cursor < self.state.plan@.len(),
            self.state.plan@[self.state.plan_cursor as int].is_unsigned(),
        ensures
            exists|key: HpkePublicKey|
                {
                    &&& #[trigger] self.context.is_shared_key(key)
                    &&& append_request_due(
                        self.context.ohttp_keys,
                        self.context.directory@,
                        ohttp_relay@,
                        key.spec_short_id(),
                        self.state.plan@[self.state.plan_cursor as int].fragment(),
                        key,
                        key,
                        r,
                    )
                },
    {
        let action = self.state.plan.action(self.state.plan_cursor).unwrap();
        let msg = action.as_psbt_fragment();
        let keypair = self.context.session_shared_keypair();
        append_request(
            &self.context.ohttp_keys,
            &self.context.directory,
            ohttp_relay,
            &keypair.public_key().short_id(),
            &msg,
            keypair.public_key(),
            keypair.public_key(),
        )
    }

    /// Process the directory response after an action was carried out.
    pub fn process_action_response(&self, body: &[u8], context: MailboxCtx) -> (r:
        PlanExecutionTransition)
        requires
            self.state.plan_cursor < usize::MAX,
        ensures
            action_transition_due(
                *self,
                post_outcome(directory_answer(context.handler(), body@)),
                r,
            ),
    {
        let answer = process_post_res(body, context.into_handler());
        self.action_transition(answer)
    }

    /// The transition that the directory's answer to an action calls for.
    pub fn action_transition(&self, answer: Result<(), DirectoryResponseError>) -> (r:
        PlanExecutionTransition)
        requires
            self.state.plan_cursor < usize::MAX,
        ensures
            action_transition_due(*self, answer, r),
    {
        let plan = self.state.plan.clone();
        let plan_cursor: usize = self.state.plan_cursor + 1;
        if let Err(e) = answer {
            let is_fatal = e.is_fatal();
            let err = ParticipantError::DirectoryResponse(e);
            if !is_fatal {
                return EventfulTransition::transient(err);
            }
            return EventfulTransition::fatal(
                MultipartySessionEvent::Closed(MultipartySessionOutcome::Failure),
                err,
            );
        }
        let execution = if plan_cursor >= plan.len() {
            PlanExecution::Executed(
                Participant { state: PlanExecuted {  }, context: self.context.clone() },
            )
        } else {
            PlanExecution::Executing(
                Participant {
                    state: HasPlan { plan, plan_cursor },
                    context: self.context.clone(),
                },
            )
        };
        let mut events: Vec<MultipartySessionEvent> = Vec::new();
        events.push(MultipartySessionEvent::PlanExecuted(plan_cursor));
        assert(events@ =~= seq![MultipartySessionEvent::PlanExecuted(plan_cursor)]);
        EventfulTransition::success(events, execution)
    }
}

/// Replaying the event that a carried out action saved gives the state that saving it gave.
pub proof fn law_action_replays(
    participant: Participant<HasPlan>,
    answer: Result<(), DirectoryResponseError>,
    r: PlanExecutionTransition,
)
    requires
        action_transition_due(participant, answer, r),
        answer is Ok,
    ensures
        r.0 matches Ok(done) && done.events@.len() == 1 && step(
            MultipartySession::ParticipantHasPlan(participant)@,
            done.events@[0],
        ) == Some(done.outcome@),
{
}

/// The session after `n` more actions of the plan were carried out, one event each.
pub open spec fn after_actions(session: SessionModel, cursor: nat, n: nat) -> SessionModel
    decreases n,
{
    if n == 0 {
        session
    } else {
        match step(
            after_actions(session, cursor, (n - 1) as nat),
            MultipartySessionEvent::PlanExecuted((cursor + n) as usize),
        ) {
            Some(next) => next,
            None => after_actions(session, cursor, (n - 1) as nat),
        }
    }
}

/// Carrying out every action of a plan, one after the other, executes the plan; it is not executed
/// before.
pub proof fn law_plan_is_executed_action_by_action(
    context: ParticipantContext,
    plan: Plan,
    n: nat,
)
    requires
        0 < plan@.len() <= usize::MAX,
        n <= plan@.len(),
    ensures
        after_actions(SessionModel::ParticipantHasPlan(context, plan, 0), 0, n) == if n
            == plan@.len() {
            SessionModel::ParticipantPlanExecuted(context)
        } else {
            SessionModel::ParticipantHasPlan(context, plan, n as usize)
        },
    decreases n,
{
    if n > 0 {
        law_plan_is_executed_action_by_action(context, plan, (n - 1) as nat);
    }
}

/// Participants with the same session secret share a key, and with it a mailbox. What one of them
/// appends when it carries out an action is what every other reads after the messages that were
/// there, without the zero bytes at its end; with them put back it is the fragment.
pub proof fn law_action_is_read_by_every_participant(
    participant: Participant<HasPlan>,
    other: ParticipantContext,
    shared: HpkeKeyPair,
    blob: Seq<u8>,
    frame: Seq<u8>,
)
    requires
        other.session_parameters.session_secret@
            == participant.context.session_parameters.session_secret@,
        shared.matched(),
        shared.secret@ == participant.context.shared_secret(),
        participant.state.plan_cursor < participant.state.plan@.len(),
        frames_of(blob) is Some,
        carries(
            frame,
            participant.state.plan@[participant.state.plan_cursor as int].fragment(),
            shared.public,
            shared.public,
        ),
    ensures
        forall|key: HpkePublicKey| #[trigger]
            other.is_shared_key(key) == participant.context.is_shared_key(key),
        read_outcome(Ok(Some(blob + frame)), other.shared_secret()) == Ok::<_, MailboxError>(
            frame_messages(other.shared_secret(), frames_of(blob)->0).push(
                (
                    without_trailing_zeros(
                        participant.state.plan@[participant.state.plan_cursor as int].fragment(),
                    ),
                    shared.public@,
                ),
            ),
        ),
        ({
            let fragment = participant.state.plan@[participant.state.plan_cursor as int].fragment();
            let read = without_trailing_zeros(fragment);
            read + zeros((fragment.len() - read.len()) as nat) == fragment
        }),
{
    lemma_padding_undoes_trim(
        participant.state.plan@[participant.state.plan_cursor as int].fragment(),
    );
    law_append_adds_one_message(
        blob,
        frame,
        participant.state.plan@[participant.state.plan_cursor as int].fragment(),
        shared.public,
        shared,
    );
}

/// The key that all participants of a session share is derived from the session secret alone.
pub proof fn law_shared_key_comes_from_the_session_secret(
    context: ParticipantContext,
    key: HpkePublicKey,
)
    ensures
        context.shared_secret() == hpke_derived_secret(
            context.session_parameters.session_secret@,
        ),
        context.is_shared_key(key) <==> key.valid() && key@ == hpke_public_of(
            hpke_derived_secret(context.session_parameters.session_secret@),
        ),
{
}

/// What follows the directory's answer to an action: the cursor moves to the next action and no further,
/// and the plan is executed where there is none; where the action was not taken, nothing moves: it can
/// be tried again where the failure may pass, and ends the session where it is final.
pub proof fn law_action_is_followed_up(
    participant: Participant<HasPlan>,
    answer: Result<(), DirectoryResponseError>,
    r: PlanExecutionTransition,
)
    requires
        action_transition_due(participant, answer, r),
        participant.state.plan_cursor < usize::MAX,
    ensures
        match answer {
            Ok(()) => r.0 matches Ok(done) && {
                &&& done.events@.len() == 1
                &&& done.events@[0] matches MultipartySessionEvent::PlanExecuted(cursor)
                &&& cursor == participant.state.plan_cursor + 1
                &&& match done.outcome {
                    PlanExecution::Executing(next) => {
                        &&& cursor < participant.state.plan@.len()
                        &&& next.state.plan_cursor == cursor
                        &&& next.state.plan == participant.state.plan
                        &&& next.context == participant.context
                    },
                    PlanExecution::Executed(next) => {
                        &&& cursor >= participant.state.plan@.len()
                        &&& next.context == participant.context
                    },
                }
            },
            Err(e) if !e.spec_is_fatal() => r.0 matches Err(EventfulError::Transient(error))
                && error == ParticipantError::DirectoryResponse(e),
            Err(e) => r.0 matches Err(EventfulError::Fatal(event, error)) && event
                == MultipartySessionEvent::Closed(MultipartySessionOutcome::Failure) && error
                == ParticipantError::DirectoryResponse(e),
        },
{
}

} // verus!
