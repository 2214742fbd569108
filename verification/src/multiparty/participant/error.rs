//! Errors of participants.
use vstd::prelude::*;
use vstd::std_specs::convert::FromSpecImpl;

use crate::hpke::HpkeError;
use crate::multiparty::session_parameters::SessionParametersError;
use crate::ohttp::{DirectoryResponseError, OhttpEncapsulationError};
use crate::text::{concat, ends_with, lemma_ends_with};
use crate::url::UrlParseError;

verus! {

/// Errors from shared multiparty participant operations.
#[derive(Debug, Clone, Copy, PartialEq, Eq)]
pub enum ParticipantError {
    ParseUrl(UrlParseError),
    OhttpEncapsulation(OhttpEncapsulationError),
    Hpke(HpkeError),
    DirectoryResponse(DirectoryResponseError),
    SessionParameters(SessionParametersError),
}

/// Alias for typestate transitions.
pub type ParticipantSessionError = ParticipantError;

impl ParticipantError {
    /// Whether trying again may help: the directory failed for a reason that may pass.
    pub open spec fn may_pass(self) -> bool {
        self matches ParticipantError::DirectoryResponse(e) && !e.spec_is_fatal()
    }

    /// The message shown for this error.
    pub open spec fn spec_message(self) -> Seq<char> {
        match self {
            ParticipantError::ParseUrl(e) => "URL parsing failed: "@ + e.spec_message(),
            ParticipantError::OhttpEncapsulation(e) => "OHTTP encapsulation error: "@
                + e.spec_message(),
            ParticipantError::Hpke(e) => "HPKE encryption failed: "@ + e.spec_message(),
            ParticipantError::DirectoryResponse(e) => "directory response error: "@
                + e.spec_message(),
            ParticipantError::SessionParameters(e) => "session parameters error: "@
                + e.spec_message(),
        }
    }

    /// The message shown for this error.
    pub fn message(&self) -> (r: String)
        ensures
            r@ == self.spec_message(),
    {
        match self {
            Self::ParseUrl(e) => concat("URL parsing failed: ", &e.message()),
            Self::OhttpEncapsulation(e) => concat("OHTTP encapsulation error: ", &e.message()),
            Self::Hpke(e) => concat("HPKE encryption failed: ", &e.message()),
            Self::DirectoryResponse(e) => concat("directory response error: ", &e.message()),
            Self::SessionParameters(e) => concat("session parameters error: ", &e.message()),
        }
    }
}

impl From<UrlParseError> for ParticipantError {
    fn from(value: UrlParseError) -> (r: Self) {
        ParticipantError::ParseUrl(value)
    }
}

impl FromSpecImpl<UrlParseError> for ParticipantError {
    open spec fn obeys_from_spec() -> bool {
        true
    }

    open spec fn from_spec(value: UrlParseError) -> Self {
        ParticipantError::ParseUrl(value)
    }
}

impl From<OhttpEncapsulationError> for ParticipantError {
    fn from(value: OhttpEncapsulationError) -> (r: Self) {
        ParticipantError::OhttpEncapsulation(value)
    }
}

impl FromSpecImpl<OhttpEncapsulationError> for ParticipantError {
    open spec fn obeys_from_spec() -> bool {
        true
    }

    open spec fn from_spec(value: OhttpEncapsulationError) -> Self {
        ParticipantError::OhttpEncapsulation(value)
    }
}

impl From<HpkeError> for ParticipantError {
    fn from(value: HpkeError) -> (r: Self) {
        ParticipantError::Hpke(value)
    }
}

impl FromSpecImpl<HpkeError> for ParticipantError {
    open spec fn obeys_from_spec() -> bool {
        true
    }

    open spec fn from_spec(value: HpkeError) -> Self {
        ParticipantError::Hpke(value)
    }
}

impl From<DirectoryResponseError> for ParticipantError {
    fn from(value: DirectoryResponseError) -> (r: Self) {
        ParticipantError::DirectoryResponse(value)
    }
}

impl FromSpecImpl<DirectoryResponseError> for ParticipantError {
    open spec fn obeys_from_spec() -> bool {
        true
    }

    open spec fn from_spec(value: DirectoryResponseError) -> Self {
        ParticipantError::DirectoryResponse(value)
    }
}

impl From<SessionParametersError> for ParticipantError {
    fn from(value: SessionParametersError) -> (r: Self) {
        ParticipantError::SessionParameters(value)
    }
}

impl FromSpecImpl<SessionParametersError> for ParticipantError {
    open spec fn obeys_from_spec() -> bool {
        true
    }

    open spec fn from_spec(value: SessionParametersError) -> Self {
        ParticipantError::SessionParameters(value)
    }
}

/// The message of an error that has a cause ends with the message of the cause.
pub proof fn law_message_ends_with_the_cause(e: ParticipantError)
    ensures
        match e {
            ParticipantError::ParseUrl(cause) => ends_with(e.spec_message(), cause.spec_message()),
            ParticipantError::OhttpEncapsulation(cause) => ends_with(
                e.spec_message(),
                cause.spec_message(),
            ),
            ParticipantError::Hpke(cause) => ends_with(e.spec_message(), cause.spec_message()),
            ParticipantError::DirectoryResponse(cause) => ends_with(
                e.spec_message(),
                cause.spec_message(),
            ),
            ParticipantError::SessionParameters(cause) => ends_with(
                e.spec_message(),
                cause.spec_message(),
            ),
        },
{
    match e {
        ParticipantError::ParseUrl(cause) => lemma_ends_with(
            "URL parsing failed: "@,
            cause.spec_message(),
        ),
        ParticipantError::OhttpEncapsulation(cause) => lemma_ends_with(
            "OHTTP encapsulation error: "@,
            cause.spec_message(),
        ),
        ParticipantError::Hpke(cause) => lemma_ends_with(
            "HPKE encryption failed: "@,
            cause.spec_message(),
        ),
        ParticipantError::DirectoryResponse(cause) => lemma_ends_with(
            "directory response error: "@,
            cause.spec_message(),
        ),
        ParticipantError::SessionParameters(cause) => lemma_ends_with(
            "session parameters error: "@,
            cause.spec_message(),
        ),
    }
}

} // verus!
