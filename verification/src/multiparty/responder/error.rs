//! Errors of responders.
use vstd::prelude::*;
use vstd::std_specs::convert::FromSpecImpl;

use crate::hpke::HpkeError;
use crate::ohttp::{DirectoryResponseError, OhttpEncapsulationError};
use crate::text::{concat, ends_with, lemma_ends_with};
use crate::url::UrlParseError;

verus! {

/// Errors from multiparty responder operations (request creation and typestate transitions).
#[derive(Debug, Clone, Copy, PartialEq, Eq)]
pub enum ResponderError {
    ParseUrl(UrlParseError),
    OhttpEncapsulation(OhttpEncapsulationError),
    Hpke(HpkeError),
    DirectoryResponse(DirectoryResponseError),
    Expired,
    NotV2,
}

/// Alias for typestate transitions.
pub type ResponderSessionError = ResponderError;

impl ResponderError {
    /// Whether trying again may help: the directory failed for a reason that may pass.
    pub open spec fn may_pass(self) -> bool {
        self matches ResponderError::DirectoryResponse(e) && !e.spec_is_fatal()
    }

    /// The message shown for this error.
    pub open spec fn spec_message(self) -> Seq<char> {
        match self {
            ResponderError::ParseUrl(e) => "URL parsing failed: "@ + e.spec_message(),
            ResponderError::OhttpEncapsulation(e) => "OHTTP encapsulation error: "@
                + e.spec_message(),
            ResponderError::Hpke(e) => "HPKE encryption failed: "@ + e.spec_message(),
            ResponderError::DirectoryResponse(e) => "directory response error: "@
                + e.spec_message(),
            ResponderError::Expired => "Payjoin URI expired"@,
            ResponderError::NotV2 => "multiparty responder requires a v2 pj parameter"@,
        }
    }

    /// The message shown for this error.
    pub fn message(&self) -> (r: String)
        ensures
            r@ == self.spec_message(),
    {
        match self {
            Self::ParseUrl(e) => concat("URL parsing failed: ", &e.message()),
            Self::OhttpEncapsulation(e) => concat("OHTTP encapsulation error: ", &e.message()),
            Self::Hpke(e) => concat("HPKE encryption failed: ", &e.message()),
            Self::DirectoryResponse(e) => concat("directory response error: ", &e.message()),
            Self::Expired => "Payjoin URI expired".to_owned(),
            Self::NotV2 => "multiparty responder requires a v2 pj parameter".to_owned(),
        }
    }
}

impl From<UrlParseError> for ResponderError {
    fn from(value: UrlParseError) -> (r: Self) {
        ResponderError::ParseUrl(value)
    }
}

impl FromSpecImpl<UrlParseError> for ResponderError {
    open spec fn obeys_from_spec() -> bool {
        true
    }

    open spec fn from_spec(value: UrlParseError) -> Self {
        ResponderError::ParseUrl(value)
    }
}

impl From<OhttpEncapsulationError> for ResponderError {
    fn from(value: OhttpEncapsulationError) -> (r: Self) {
        ResponderError::OhttpEncapsulation(value)
    }
}

impl FromSpecImpl<OhttpEncapsulationError> for ResponderError {
    open spec fn obeys_from_spec() -> bool {
        true
    }

    open spec fn from_spec(value: OhttpEncapsulationError) -> Self {
        ResponderError::OhttpEncapsulation(value)
    }
}

impl From<HpkeError> for ResponderError {
    fn from(value: HpkeError) -> (r: Self) {
        ResponderError::Hpke(value)
    }
}

impl FromSpecImpl<HpkeError> for ResponderError {
    open spec fn obeys_from_spec() -> bool {
        true
    }

    open spec fn from_spec(value: HpkeError) -> Self {
        ResponderError::Hpke(value)
    }
}

impl From<DirectoryResponseError> for ResponderError {
    fn from(value: DirectoryResponseError) -> (r: Self) {
        ResponderError::DirectoryResponse(value)
    }
}

impl FromSpecImpl<DirectoryResponseError> for ResponderError {
    open spec fn obeys_from_spec() -> bool {
        true
    }

    open spec fn from_spec(value: DirectoryResponseError) -> Self {
        ResponderError::DirectoryResponse(value)
    }
}

/// The message of an error that has a cause ends with the message of the cause.
pub proof fn law_message_ends_with_the_cause(e: ResponderError)
    ensures
        match e {
            ResponderError::ParseUrl(cause) => ends_with(e.spec_message(), cause.spec_message()),
            ResponderError::OhttpEncapsulation(cause) => ends_with(
                e.spec_message(),
                cause.spec_message(),
            ),
            ResponderError::Hpke(cause) => ends_with(e.spec_message(), cause.spec_message()),
            ResponderError::DirectoryResponse(cause) => ends_with(
                e.spec_message(),
                cause.spec_message(),
            ),
            _ => true,
        },
{
    match e {
        ResponderError::ParseUrl(cause) => lemma_ends_with(
            "URL parsing failed: "@,
            cause.spec_message(),
        ),
        ResponderError::OhttpEncapsulation(cause) => lemma_ends_with(
            "OHTTP encapsulation error: "@,
            cause.spec_message(),
        ),
        ResponderError::Hpke(cause) => lemma_ends_with(
            "HPKE encryption failed: "@,
            cause.spec_message(),
        ),
        ResponderError::DirectoryResponse(cause) => lemma_ends_with(
            "directory response error: "@,
            cause.spec_message(),
        ),
        _ => {},
    }
}

} // verus!
