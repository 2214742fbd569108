//! The session creator: fixes the session parameters and delivers them to every participant.

pub mod distribution;
pub mod error;
pub mod promotion;
pub mod session;

use std::sync::Arc;

use vstd::prelude::*;

use crate::hpke::{HpkeKeyPair, HpkePublicKey};
use crate::multiparty::session::{MultipartySession, SessionModel};
use crate::multiparty::session_parameters::{ParametersModel, SessionParameters};
use crate::ohttp::OhttpKeys;
use crate::url::{Url, UrlModel};

pub use crate::multiparty::session::replay_event_log;
pub use distribution::{
    ParametersDelivery, ParametersDistributionTransition, SessionParametersDistributionMessage,
};
pub use promotion::{SessionCreatorBuilder, SessionCreatorError, SessionCreatorPromoteError};
pub use error::{InternalSessionCreatorSessionError, SessionCreatorSessionError};

verus! {

/// Delivery status for a participant awaiting session parameters.
#[derive(Debug, Clone, Copy, PartialEq, Eq)]
pub struct PendingParticipant {
    /// Responder reply key; also the mailbox id for this participant.
    pub public_key: HpkePublicKey,
    /// Whether session parameters were sent and the response was processed
    pub parameters_delivered: bool,
}

/// Persistent context for a multiparty session creator.
#[derive(Debug, PartialEq, Eq)]
pub struct SessionCreatorContext {
    pub creator_key: HpkeKeyPair,
    pub directory: Url,
    pub ohttp_keys: OhttpKeys,
    pub session_parameters: SessionParameters,
    pub participants: Arc<Vec<PendingParticipant>>,
}

/// What is known of a session creator.
pub struct CreatorModel {
    pub creator_key: HpkeKeyPair,
    pub directory: UrlModel,
    pub ohttp_keys: OhttpKeys,
    pub session_parameters: ParametersModel,
    pub participants: Seq<PendingParticipant>,
}

impl View for SessionCreatorContext {
    type V = CreatorModel;

    open spec fn view(&self) -> CreatorModel {
        CreatorModel {
            creator_key: self.creator_key,
            directory: self.directory@,
            ohttp_keys: self.ohttp_keys,
            session_parameters: self.session_parameters@,
            participants: self.participants@,
        }
    }
}

impl Clone for SessionCreatorContext {
    fn clone(&self) -> (r: Self)
        ensures
            r == *self,
    {
        SessionCreatorContext {
            creator_key: self.creator_key,
            directory: self.directory.clone(),
            ohttp_keys: self.ohttp_keys,
            session_parameters: self.session_parameters.clone(),
            participants: self.participants.clone(),
        }
    }
}

/// Multiparty session-creator state machine.
#[derive(Debug, PartialEq, Eq)]
pub struct SessionCreator<State> {
    pub state: State,
    pub context: SessionCreatorContext,
}

/// Session creator has collected participant mailboxes and is distributing parameters.
#[derive(Debug, Clone, Copy, PartialEq, Eq)]
pub struct CollectedSessions {}

/// Session parameters were delivered to every participant.
#[derive(Debug, Clone, Copy, PartialEq, Eq)]
pub struct ParametersDistributed {}

/// The first position at which a participant has the given key.
pub open spec fn position_of(participants: Seq<PendingParticipant>, key: HpkePublicKey) -> Option<int>
    decreases participants.len(),
{
    if participants.len() == 0 {
        None
    } else {
        match position_of(participants.drop_last(), key) {
            Some(i) => Some(i),
            None => if participants.last().public_key == key {
                Some(participants.len() - 1)
            } else {
                None
            },
        }
    }
}

/// Whether there are participants, and each has acknowledged delivery.
pub open spec fn all_delivered(participants: Seq<PendingParticipant>) -> bool {
    participants.len() > 0 && forall|i: int|
        0 <= i < participants.len() ==> (#[trigger] participants[i]).parameters_delivered
}

/// The participants after the first one with the given key has acknowledged delivery; an error
/// where there is none, or where it has done so before.
pub open spec fn delivered_to(participants: Seq<PendingParticipant>, key: HpkePublicKey) -> Result<
    Seq<PendingParticipant>,
    InternalSessionCreatorSessionError,
> {
    match position_of(participants, key) {
        None => Err(InternalSessionCreatorSessionError::UnknownParticipant),
        Some(i) => if participants[i].parameters_delivered {
            Err(InternalSessionCreatorSessionError::AlreadyDelivered)
        } else {
            Ok(
                participants.update(
                    i,
                    PendingParticipant {
                        public_key: participants[i].public_key,
                        parameters_delivered: true,
                    },
                ),
            )
        },
    }
}

/// What holds of the first position of a key.
proof fn lemma_position(participants: Seq<PendingParticipant>, key: HpkePublicKey)
    ensures
        match position_of(participants, key) {
            Some(i) => 0 <= i < participants.len() && participants[i].public_key == key && forall|
                j: int,
            |
                0 <= j < i ==> (#[trigger] participants[j]).public_key != key,
            None => forall|j: int|
                0 <= j < participants.len() ==> (#[trigger] participants[j]).public_key != key,
        },
    decreases participants.len(),
{
    if participants.len() > 0 {
        lemma_position(participants.drop_last(), key);
        assert forall|j: int| 0 <= j < participants.len() - 1 implies participants.drop_last()[j]
            == #[trigger] participants[j] by {}
    }
}

/// Where a key first stands.
pub(crate) proof fn lemma_position_is(participants: Seq<PendingParticipant>, key: HpkePublicKey, i: int)
    requires
        0 <= i < participants.len(),
        participants[i].public_key == key,
        forall|j: int| 0 <= j < i ==> (#[trigger] participants[j]).public_key != key,
    ensures
        position_of(participants, key) == Some(i),
{
    lemma_position(participants, key);
}

impl SessionCreatorContext {
    /// The first participant that has not acknowledged delivery, if any.
    pub fn next_undelivered(&self) -> (r: Option<&PendingParticipant>)
        ensures
            match r {
                Some(p) => exists|i: int| is_next_undelivered(self@.participants, i) && *p
                    == #[trigger] self@.participants[i],
                None => forall|i: int|
                    0 <= i < self@.participants.len() ==> (
                    #[trigger] self@.participants[i]).parameters_delivered,
            },
    {
        let mut i: usize = 0;
        while i < self.participants.len()
            invariant
                i <= self.participants@.len(),
                forall|j: int|
                    0 <= j < i ==> (#[trigger] self.participants@[j]).parameters_delivered,
            decreases self.participants@.len() - i,
        {
            if !self.participants[i].parameters_delivered {
                assert(is_next_undelivered(self@.participants, i as int));
                return Some(&self.participants[i]);
            }
            i += 1;
        }
        None
    }

    /// Whether there are participants, and each has acknowledged delivery.
    pub fn all_parameters_delivered(&self) -> (r: bool)
        ensures
            r == all_delivered(self@.participants),
    {
        let mut i: usize = 0;
        while i < self.participants.len()
            invariant
                i <= self.participants@.len(),
                forall|j: int|
                    0 <= j < i ==> (#[trigger] self.participants@[j]).parameters_delivered,
            decreases self.participants@.len() - i,
        {
            if !self.participants[i].parameters_delivered {
                return false;
            }
            i += 1;
        }
        self.participants.len() > 0
    }

    /// Whether delivery to the participant with the given key is due.
    pub fn is_due(&self, recipient: &HpkePublicKey) -> (r: bool)
        ensures
            r == (delivered_to(self@.participants, *recipient) is Ok),
    {
        let n: usize = self.participants.len();
        let mut i: usize = 0;
        while i < n && !self.participants[i].public_key.same_as(recipient)
            invariant
                i <= n,
                n == self.participants@.len(),
                forall|j: int|
                    0 <= j < i ==> (#[trigger] self.participants@[j]).public_key != *recipient,
            decreases n - i,
        {
            i += 1;
        }
        proof {
            lemma_position(self.participants@, *recipient);
            if i < n {
                lemma_position_is(self.participants@, *recipient, i as int);
            }
        }
        i < n && !self.participants[i].parameters_delivered
    }

    /// Notes that the participant with the given key has acknowledged delivery.
    pub fn mark_parameters_delivered(&mut self, recipient: &HpkePublicKey) -> (r: Result<
        (),
        InternalSessionCreatorSessionError,
    >)
        ensures
            match delivered_to(old(self)@.participants, *recipient) {
                Ok(participants) => r is Ok && final(self)@ == (CreatorModel {
                    participants,
                    ..old(self)@
                }),
                Err(e) => r == Err::<(), _>(e) && *final(self) == *old(self),
            },
    {
        let n: usize = self.participants.len();
        let mut i: usize = 0;
        while i < n && !self.participants[i].public_key.same_as(recipient)
            invariant
                i <= n,
                n == self.participants@.len(),
                forall|j: int|
                    0 <= j < i ==> (#[trigger] self.participants@[j]).public_key != *recipient,
                *self == *old(self),
            decreases n - i,
        {
            i += 1;
        }
        proof {
            lemma_position(self.participants@, *recipient);
        }
        if i == n {
            return Err(InternalSessionCreatorSessionError::UnknownParticipant);
        }
        proof {
            lemma_position_is(self.participants@, *recipient, i as int);
        }
        if self.participants[i].parameters_delivered {
            return Err(InternalSessionCreatorSessionError::AlreadyDelivered);
        }
        let ghost start = self.participants@;
        let mut participants: Vec<PendingParticipant> = Vec::new();
        let mut k: usize = 0;
        while k < n
            invariant
                k <= n,
                i < n,
                n == start.len(),
                start == self.participants@,
                *self == *old(self),
                participants@ == start.update(
                    i as int,
                    PendingParticipant {
                        public_key: start[i as int].public_key,
                        parameters_delivered: true,
                    },
                ).take(k as int),
            decreases n - k,
        {
            let ghost want = start.update(
                i as int,
                PendingParticipant {
                    public_key: start[i as int].public_key,
                    parameters_delivered: true,
                },
            );
            let p = self.participants[k];
            if k == i {
                participants.push(
                    PendingParticipant { public_key: p.public_key, parameters_delivered: true },
                );
            } else {
                participants.push(p);
            }
            assert(participants@ =~= want.take(k + 1));
            k += 1;
        }
        assert(participants@ =~= start.update(
            i as int,
            PendingParticipant {
                public_key: start[i as int].public_key,
                parameters_delivered: true,
            },
        ));
        self.participants = Arc::new(participants);
        Ok(())
    }
}

/// Whether the participant at position `i` is the first that has not acknowledged delivery.
pub open spec fn is_next_undelivered(participants: Seq<PendingParticipant>, i: int) -> bool {
    &&& 0 <= i < participants.len()
    &&& !participants[i].parameters_delivered
    &&& forall|j: int| 0 <= j < i ==> (#[trigger] participants[j]).parameters_delivered
}

impl SessionCreator<CollectedSessions> {
    /// The session after a participant has acknowledged delivery.
    pub fn apply_parameters_delivered(self, recipient: HpkePublicKey) -> (r: MultipartySession)
        requires
            delivered_to(self.context@.participants, recipient) is Ok,
        ensures
            r@ == SessionModel::SessionCreatorCollectedSessions(
                CreatorModel {
                    participants: delivered_to(self.context@.participants, recipient)->Ok_0,
                    ..self.context@
                },
            ),
    {
        let mut context = self.context;
        let _ = context.mark_parameters_delivered(&recipient);
        MultipartySession::SessionCreatorCollectedSessions(
            SessionCreator { state: CollectedSessions {  }, context },
        )
    }

    /// The session after every participant has acknowledged delivery.
    pub fn apply_all_parameters_delivered(self) -> (r: MultipartySession)
        requires
            all_delivered(self.context@.participants),
        ensures
            r@ == SessionModel::SessionCreatorParametersDistributed(self.context@),
    {
        MultipartySession::SessionCreatorParametersDistributed(
            SessionCreator { state: ParametersDistributed {  }, context: self.context },
        )
    }
}

/// How many participants have not acknowledged delivery.
pub open spec fn undelivered(participants: Seq<PendingParticipant>) -> nat
    decreases participants.len(),
{
    if participants.len() == 0 {
        0
    } else {
        undelivered(participants.drop_last()) + if participants.last().parameters_delivered {
            0nat
        } else {
            1nat
        }
    }
}

/// Changing one participant changes the count by that participant.
proof fn lemma_undelivered_update(participants: Seq<PendingParticipant>, i: int, p: PendingParticipant)
    requires
        0 <= i < participants.len(),
        !participants[i].parameters_delivered,
        p.parameters_delivered,
    ensures
        undelivered(participants.update(i, p)) + 1 == undelivered(participants),
    decreases participants.len(),
{
    let after = participants.update(i, p);
    if i < participants.len() - 1 {
        lemma_undelivered_update(participants.drop_last(), i, p);
        assert(after.drop_last() =~= participants.drop_last().update(i, p));
    } else {
        assert(after.drop_last() =~= participants.drop_last());
    }
}

/// All have acknowledged where none is left.
proof fn lemma_none_undelivered(participants: Seq<PendingParticipant>)
    ensures
        undelivered(participants) == 0 <==> forall|i: int|
            0 <= i < participants.len() ==> (#[trigger] participants[i]).parameters_delivered,
    decreases participants.len(),
{
    if participants.len() > 0 {
        let before = participants.drop_last();
        lemma_none_undelivered(before);
        if undelivered(participants) == 0 {
            assert forall|i: int| 0 <= i < participants.len() implies (
            #[trigger] participants[i]).parameters_delivered by {
                if i < before.len() {
                    assert(before[i].parameters_delivered);
                }
            }
        } else if forall|i: int|
            0 <= i < participants.len() ==> (#[trigger] participants[i]).parameters_delivered {
            assert forall|i: int| 0 <= i < before.len() implies (
            #[trigger] before[i]).parameters_delivered by {
                assert(participants[i].parameters_delivered);
            }
            assert(participants.last() == participants[participants.len() - 1]);
        }
    }
}

/// An acknowledged delivery changes nothing but the status of that participant, and leaves one
/// fewer to be served. What was acknowledged stays acknowledged.
pub proof fn law_delivery_serves_one_participant(
    participants: Seq<PendingParticipant>,
    key: HpkePublicKey,
)
    requires
        delivered_to(participants, key) is Ok,
    ensures
        delivered_to(participants, key) matches Ok(after) && {
            &&& after.len() == participants.len()
            &&& undelivered(after) + 1 == undelivered(participants)
            &&& forall|i: int|
                0 <= i < participants.len() ==> (#[trigger] after[i]).public_key
                    == participants[i].public_key && (participants[i].public_key != key
                    ==> after[i] == participants[i]) && (participants[i].parameters_delivered
                    ==> after[i].parameters_delivered)
        },
{
    lemma_position(participants, key);
    let i = position_of(participants, key)->0;
    lemma_undelivered_update(
        participants,
        i,
        PendingParticipant { public_key: participants[i].public_key, parameters_delivered: true },
    );
}

/// A delivery is acknowledged once: the second time it is refused.
pub proof fn law_delivery_is_acknowledged_once(
    participants: Seq<PendingParticipant>,
    key: HpkePublicKey,
)
    requires
        delivered_to(participants, key) is Ok,
    ensures
        delivered_to(delivered_to(participants, key)->Ok_0, key) == Err::<
            Seq<PendingParticipant>,
            _,
        >(InternalSessionCreatorSessionError::AlreadyDelivered),
{
    lemma_position(participants, key);
    let i = position_of(participants, key)->0;
    let after = delivered_to(participants, key)->Ok_0;
    assert forall|j: int| 0 <= j < i implies (#[trigger] after[j]).public_key != key by {
        assert(participants[j].public_key != key);
    }
    lemma_position_is(after, key, i);
}

/// A key that no participant has is refused.
pub proof fn law_stranger_is_refused(participants: Seq<PendingParticipant>, key: HpkePublicKey)
    requires
        forall|i: int| 0 <= i < participants.len() ==> (#[trigger] participants[i]).public_key != key,
    ensures
        delivered_to(participants, key) == Err::<Seq<PendingParticipant>, _>(
            InternalSessionCreatorSessionError::UnknownParticipant,
        ),
{
    lemma_position(participants, key);
}

/// Where no two participants share a key, delivery to the next one to be served is due, and the
/// parameters are distributed when the last one is served and not before.
pub proof fn law_serving_the_next_ends_in_distribution(
    participants: Seq<PendingParticipant>,
    i: int,
)
    requires
        forall|j: int, k: int|
            0 <= j < k < participants.len() ==> (#[trigger] participants[j]).public_key != (
            #[trigger] participants[k]).public_key,
        is_next_undelivered(participants, i),
    ensures
        delivered_to(participants, participants[i].public_key) matches Ok(after) && all_delivered(
            after,
        ) == (undelivered(participants) == 1),
{
    let key = participants[i].public_key;
    assert forall|j: int| 0 <= j < i implies (#[trigger] participants[j]).public_key != key by {}
    lemma_position_is(participants, key, i);
    law_delivery_serves_one_participant(participants, key);
    lemma_none_undelivered(delivered_to(participants, key)->Ok_0);
}

/// A delivery can be noted for any participant that has not acknowledged one, in any order: it is then
/// acknowledged, and every other participant is as it was.
pub proof fn law_any_pending_delivery_is_noted(
    participants: Seq<PendingParticipant>,
    i: int,
    key: HpkePublicKey,
)
    requires
        0 <= i < participants.len(),
        participants[i].public_key == key,
        !participants[i].parameters_delivered,
        forall|j: int| 0 <= j < i ==> (#[trigger] participants[j]).public_key != key,
    ensures
        delivered_to(participants, key) matches Ok(after) && {
            &&& after.len() == participants.len()
            &&& after[i].public_key == key
            &&& after[i].parameters_delivered
            &&& forall|j: int|
                0 <= j < participants.len() && j != i ==> #[trigger] after[j] == participants[j]
        },
{
    lemma_position_is(participants, key, i);
}

/// A delivery that was acknowledged is refused as such.
pub proof fn law_acknowledged_delivery_is_refused(
    participants: Seq<PendingParticipant>,
    i: int,
    key: HpkePublicKey,
)
    requires
        0 <= i < participants.len(),
        participants[i].public_key == key,
        participants[i].parameters_delivered,
        forall|j: int| 0 <= j < i ==> (#[trigger] participants[j]).public_key != key,
    ensures
        delivered_to(participants, key) == Err::<Seq<PendingParticipant>, _>(
            InternalSessionCreatorSessionError::AlreadyDelivered,
        ),
{
    lemma_position_is(participants, key, i);
}

/// The parameters are distributed where there are participants and each has acknowledged delivery: one
/// that has not is enough to keep the distribution open.
pub proof fn law_distribution_is_complete(participants: Seq<PendingParticipant>)
    ensures
        all_delivered(participants) <==> participants.len() > 0 && undelivered(participants) == 0,
        !all_delivered(participants) && participants.len() > 0 ==> exists|i: int|
            is_next_undelivered(participants, i),
{
    lemma_none_undelivered(participants);
    if participants.len() > 0 && !all_delivered(participants) {
        lemma_some_is_next(participants, participants.len());
    }
}

/// Among participants of whom one has not acknowledged delivery, one is the first.
proof fn lemma_some_is_next(participants: Seq<PendingParticipant>, n: nat)
    requires
        n <= participants.len(),
        exists|i: int| 0 <= i < n && !(#[trigger] participants[i]).parameters_delivered,
    ensures
        exists|i: int| is_next_undelivered(participants, i),
    decreases n,
{
    let i = choose|i: int| 0 <= i < n && !(#[trigger] participants[i]).parameters_delivered;
    if exists|j: int| 0 <= j < i && !(#[trigger] participants[j]).parameters_delivered {
        lemma_some_is_next(participants, i as nat);
    } else {
        assert(is_next_undelivered(participants, i));
    }
}

/// What is said of a session creator is what it holds, part by part.
pub proof fn law_creator_is_what_is_said(context: SessionCreatorContext)
    ensures
        context@.creator_key == context.creator_key,
        context@.directory == context.directory@,
        context@.ohttp_keys == context.ohttp_keys,
        context@.session_parameters == context.session_parameters@,
        context@.participants == context.participants@,
{
}

/// The next participant to be served is the first that has not acknowledged delivery: every one before it
/// has. There is at most one such participant.
pub proof fn law_next_is_the_first(participants: Seq<PendingParticipant>, i: int, k: int)
    requires
        is_next_undelivered(participants, i),
    ensures
        0 <= i < participants.len(),
        !participants[i].parameters_delivered,
        0 <= k < i ==> participants[k].parameters_delivered,
        is_next_undelivered(participants, k) ==> k == i,
{
}

} // verus!
