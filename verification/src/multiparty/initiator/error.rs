//! Errors of initiators.
use vstd::prelude::*;
use vstd::std_specs::convert::FromSpecImpl;

use crate::hpke::HpkeError;
use crate::ohttp::{DirectoryResponseError, OhttpEncapsulationError};
use crate::text::{concat, ends_with, lemma_ends_with};
use crate::url::UrlParseError;

verus! {

/// Errors from multiparty initiator operations (request creation and typestate transitions).
#[derive(Debug, Clone, Copy, PartialEq, Eq)]
pub enum InitiatorError {
    ParseUrl(UrlParseError),
    OhttpEncapsulation(OhttpEncapsulationError),
    Hpke(HpkeError),
    DirectoryResponse(DirectoryResponseError),
}

/// Alias for typestate transitions.
pub type InitiatorSessionError = InitiatorError;

impl InitiatorError {
    /// Whether trying again may help: the directory failed for a reason that may pass.
    pub open spec fn may_pass(self) -> bool {
        self matches InitiatorError::DirectoryResponse(e) && !e.spec_is_fatal()
    }

    /// The message shown for this error.
    pub open spec fn spec_message(self) -> Seq<char> {
        match self {
            InitiatorError::ParseUrl(e) => "URL parsing failed: "@ + e.spec_message(),
            InitiatorError::OhttpEncapsulation(e) => "OHTTP encapsulation error: "@
                + e.spec_message(),
            InitiatorError::Hpke(e) => "HPKE decryption failed: "@ + e.spec_message(),
            InitiatorError::DirectoryResponse(e) => "directory response error: "@
                + e.spec_message(),
        }
    }

    /// The message shown for this error.
    pub fn message(&self) -> (r: String)
        ensures
            r@ == self.spec_message(),
    {
        match self {
            Self::ParseUrl(e) => concat("URL parsing failed: ", &e.message()),
            Self::OhttpEncapsulation(e) => concat("OHTTP encapsulation error: ", &e.message()),
            Self::Hpke(e) => concat("HPKE decryption failed: ", &e.message()),
            Self::DirectoryResponse(e) => concat("directory response error: ", &e.message()),
        }
    }
}

impl From<UrlParseError> for InitiatorError {
    fn from(value: UrlParseError) -> (r: Self) {
        InitiatorError::ParseUrl(value)
    }
}

impl FromSpecImpl<UrlParseError> for InitiatorError {
    open spec fn obeys_from_spec() -> bool {
        true
    }

    open spec fn from_spec(value: UrlParseError) -> Self {
        InitiatorError::ParseUrl(value)
    }
}

impl From<OhttpEncapsulationError> for InitiatorError {
    fn from(value: OhttpEncapsulationError) -> (r: Self) {
        InitiatorError::OhttpEncapsulation(value)
    }
}

impl FromSpecImpl<OhttpEncapsulationError> for InitiatorError {
    open spec fn obeys_from_spec() -> bool {
        true
    }

    open spec fn from_spec(value: OhttpEncapsulationError) -> Self {
        InitiatorError::OhttpEncapsulation(value)
    }
}

impl From<HpkeError> for InitiatorError {
    fn from(value: HpkeError) -> (r: Self) {
        InitiatorError::Hpke(value)
    }
}

impl FromSpecImpl<HpkeError> for InitiatorError {
    open spec fn obeys_from_spec() -> bool {
        true
    }

    open spec fn from_spec(value: HpkeError) -> Self {
        InitiatorError::Hpke(value)
    }
}

impl From<DirectoryResponseError> for InitiatorError {
    fn from(value: DirectoryResponseError) -> (r: Self) {
        InitiatorError::DirectoryResponse(value)
    }
}

impl FromSpecImpl<DirectoryResponseError> for InitiatorError {
    open spec fn obeys_from_spec() -> bool {
        true
    }

    open spec fn from_spec(value: DirectoryResponseError) -> Self {
        InitiatorError::DirectoryResponse(value)
    }
}

/// The message of an error that has a cause ends with the message of the cause.
pub proof fn law_message_ends_with_the_cause(e: InitiatorError)
    ensures
        match e {
            InitiatorError::ParseUrl(cause) => ends_with(e.spec_message(), cause.spec_message()),
            InitiatorError::OhttpEncapsulation(cause) => ends_with(
                e.spec_message(),
                cause.spec_message(),
            ),
            InitiatorError::Hpke(cause) => ends_with(e.spec_message(), cause.spec_message()),
            InitiatorError::DirectoryResponse(cause) => ends_with(
                e.spec_message(),
                cause.spec_message(),
            ),
        },
{
    match e {
        InitiatorError::ParseUrl(cause) => lemma_ends_with(
            "URL parsing failed: "@,
            cause.spec_message(),
        ),
        InitiatorError::OhttpEncapsulation(cause) => lemma_ends_with(
            "OHTTP encapsulation error: "@,
            cause.spec_message(),
        ),
        InitiatorError::Hpke(cause) => lemma_ends_with(
            "HPKE decryption failed: "@,
            cause.spec_message(),
        ),
        InitiatorError::DirectoryResponse(cause) => lemma_ends_with(
            "directory response error: "@,
            cause.spec_message(),
        ),
    }
}

} // verus!
