//! Errors of session creators.
use vstd::prelude::*;
use vstd::std_specs::convert::FromSpecImpl;

use crate::hpke::HpkeError;
use crate::ohttp::{DirectoryResponseError, OhttpEncapsulationError};
use crate::text::{concat, ends_with, lemma_ends_with};
use crate::url::UrlParseError;

verus! {

/// Error that may occur during a multiparty session-creator typestate change.
#[derive(Debug, Clone, Copy, PartialEq, Eq)]
pub struct SessionCreatorSessionError(pub InternalSessionCreatorSessionError);

/// What went wrong during a session-creator typestate change.
#[derive(Debug, Clone, Copy, PartialEq, Eq)]
pub enum InternalSessionCreatorSessionError {
    ParseUrl(UrlParseError),
    OhttpEncapsulation(OhttpEncapsulationError),
    Hpke(HpkeError),
    DirectoryResponse(DirectoryResponseError),
    UnknownParticipant,
    AlreadyDelivered,
}

impl SessionCreatorSessionError {
    /// The message shown for this error.
    pub open spec fn spec_message(self) -> Seq<char> {
        match self.0 {
            InternalSessionCreatorSessionError::ParseUrl(e) => "URL parsing failed: "@
                + e.spec_message(),
            InternalSessionCreatorSessionError::OhttpEncapsulation(e) =>
                "OHTTP encapsulation error: "@ + e.spec_message(),
            InternalSessionCreatorSessionError::Hpke(e) => "HPKE encryption failed: "@
                + e.spec_message(),
            InternalSessionCreatorSessionError::DirectoryResponse(e) =>
                "directory response error: "@ + e.spec_message(),
            InternalSessionCreatorSessionError::UnknownParticipant =>
                "unknown session participant"@,
            InternalSessionCreatorSessionError::AlreadyDelivered =>
                "session parameters already delivered to participant"@,
        }
    }

    /// The message shown for this error.
    pub fn message(&self) -> (r: String)
        ensures
            r@ == self.spec_message(),
    {
        match &self.0 {
            InternalSessionCreatorSessionError::ParseUrl(e) => concat(
                "URL parsing failed: ",
                &e.message(),
            ),
            InternalSessionCreatorSessionError::OhttpEncapsulation(e) => concat(
                "OHTTP encapsulation error: ",
                &e.message(),
            ),
            InternalSessionCreatorSessionError::Hpke(e) => concat(
                "HPKE encryption failed: ",
                &e.message(),
            ),
            InternalSessionCreatorSessionError::DirectoryResponse(e) => concat(
                "directory response error: ",
                &e.message(),
            ),
            InternalSessionCreatorSessionError::UnknownParticipant =>
                "unknown session participant".to_owned(),
            InternalSessionCreatorSessionError::AlreadyDelivered =>
                "session parameters already delivered to participant".to_owned(),
        }
    }
}

impl From<InternalSessionCreatorSessionError> for SessionCreatorSessionError {
    fn from(value: InternalSessionCreatorSessionError) -> (r: Self) {
        SessionCreatorSessionError(value)
    }
}

impl FromSpecImpl<InternalSessionCreatorSessionError> for SessionCreatorSessionError {
    open spec fn obeys_from_spec() -> bool {
        true
    }

    open spec fn from_spec(value: InternalSessionCreatorSessionError) -> Self {
        SessionCreatorSessionError(value)
    }
}

impl From<UrlParseError> for SessionCreatorSessionError {
    fn from(value: UrlParseError) -> (r: Self) {
        SessionCreatorSessionError(InternalSessionCreatorSessionError::ParseUrl(value))
    }
}

impl FromSpecImpl<UrlParseError> for SessionCreatorSessionError {
    open spec fn obeys_from_spec() -> bool {
        true
    }

    open spec fn from_spec(value: UrlParseError) -> Self {
        SessionCreatorSessionError(InternalSessionCreatorSessionError::ParseUrl(value))
    }
}

impl From<OhttpEncapsulationError> for SessionCreatorSessionError {
    fn from(value: OhttpEncapsulationError) -> (r: Self) {
        SessionCreatorSessionError(InternalSessionCreatorSessionError::OhttpEncapsulation(value))
    }
}

impl FromSpecImpl<OhttpEncapsulationError> for SessionCreatorSessionError {
    open spec fn obeys_from_spec() -> bool {
        true
    }

    open spec fn from_spec(value: OhttpEncapsulationError) -> Self {
        SessionCreatorSessionError(InternalSessionCreatorSessionError::OhttpEncapsulation(value))
    }
}

/// The message of an error that has a cause ends with the message of the cause.
pub proof fn law_message_ends_with_the_cause(e: SessionCreatorSessionError)
    ensures
        match e.0 {
            InternalSessionCreatorSessionError::ParseUrl(cause) => ends_with(
                e.spec_message(),
                cause.spec_message(),
            ),
            InternalSessionCreatorSessionError::OhttpEncapsulation(cause) => ends_with(
                e.spec_message(),
                cause.spec_message(),
            ),
            InternalSessionCreatorSessionError::Hpke(cause) => ends_with(
                e.spec_message(),
                cause.spec_message(),
            ),
            InternalSessionCreatorSessionError::DirectoryResponse(cause) => ends_with(
                e.spec_message(),
                cause.spec_message(),
            ),
            _ => true,
        },
{
    match e.0 {
        InternalSessionCreatorSessionError::ParseUrl(cause) => lemma_ends_with(
            "URL parsing failed: "@,
            cause.spec_message(),
        ),
        InternalSessionCreatorSessionError::OhttpEncapsulation(cause) => lemma_ends_with(
            "OHTTP encapsulation error: "@,
            cause.spec_message(),
        ),
        InternalSessionCreatorSessionError::Hpke(cause) => lemma_ends_with(
            "HPKE encryption failed: "@,
            cause.spec_message(),
        ),
        InternalSessionCreatorSessionError::DirectoryResponse(cause) => lemma_ends_with(
            "directory response error: "@,
            cause.spec_message(),
        ),
        _ => {},
    }
}

} // verus!
