//! The error codes that a receiver may reply with.
use vstd::prelude::*;

use crate::text::str_equal;

verus! {

/// Well-known error codes.
#[derive(Debug, Clone, Copy, PartialEq, Eq, Structural)]
pub enum ErrorCode {
    /// The payjoin endpoint is not available for now.
    Unavailable,
    /// The receiver added some inputs but could not bump the fee.
    NotEnoughMoney,
    /// This version of payjoin is not supported.
    VersionUnsupported,
    /// The receiver rejected the original PSBT.
    OriginalPsbtRejected,
}

impl ErrorCode {
    /// The code as text.
    pub open spec fn text(self) -> Seq<char> {
        match self {
            ErrorCode::Unavailable => "unavailable"@,
            ErrorCode::NotEnoughMoney => "not-enough-money"@,
            ErrorCode::VersionUnsupported => "version-unsupported"@,
            ErrorCode::OriginalPsbtRejected => "original-psbt-rejected"@,
        }
    }

    /// The code as text.
    pub fn as_str(&self) -> (r: &'static str)
        ensures
            r@ == self.text(),
    {
        match self {
            Self::Unavailable => "unavailable",
            Self::NotEnoughMoney => "not-enough-money",
            Self::VersionUnsupported => "version-unsupported",
            Self::OriginalPsbtRejected => "original-psbt-rejected",
        }
    }

    /// The code that a text stands for, if it stands for one.
    pub fn parse(s: &str) -> (r: Option<ErrorCode>)
        ensures
            match r {
                Some(code) => s@ == code.text(),
                None => forall|code: ErrorCode| s@ != #[trigger] code.text(),
            },
    {
        if str_equal(s, "unavailable") {
            Some(ErrorCode::Unavailable)
        } else if str_equal(s, "not-enough-money") {
            Some(ErrorCode::NotEnoughMoney)
        } else if str_equal(s, "version-unsupported") {
            Some(ErrorCode::VersionUnsupported)
        } else if str_equal(s, "original-psbt-rejected") {
            Some(ErrorCode::OriginalPsbtRejected)
        } else {
            None
        }
    }
}

/// No two codes have the same text.
pub proof fn law_error_codes_differ(a: ErrorCode, b: ErrorCode)
    requires
        a.text() == b.text(),
    ensures
        a == b,
{
    reveal_strlit("unavailable");
    reveal_strlit("not-enough-money");
    reveal_strlit("version-unsupported");
    reveal_strlit("original-psbt-rejected");
    assert("unavailable"@.len() == 11);
    assert("not-enough-money"@.len() == 16);
    assert("version-unsupported"@.len() == 19);
    assert("original-psbt-rejected"@.len() == 22);
}

/// The texts of the codes.
pub proof fn law_error_code_texts()
    ensures
        ErrorCode::Unavailable.text() == "unavailable"@,
        ErrorCode::NotEnoughMoney.text() == "not-enough-money"@,
        ErrorCode::VersionUnsupported.text() == "version-unsupported"@,
        ErrorCode::OriginalPsbtRejected.text() == "original-psbt-rejected"@,
{
}

} // verus!
