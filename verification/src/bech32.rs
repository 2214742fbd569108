//! Bech32 texts without a checksum, as they stand in Payjoin URIs and mailbox URLs.
use vstd::prelude::*;

verus! {

/// The upper-case bech32 text, without a checksum, of a human-readable part and some bytes.
pub uninterp spec fn bech32_encoded(hrp: Seq<char>, data: Seq<u8>) -> Seq<char>;

/// The human-readable part and the bytes of a bech32 text without a checksum.
pub uninterp spec fn bech32_decoded(s: Seq<char>) -> Option<(Seq<char>, Seq<u8>)>;

/// The human-readable parts in use.
pub open spec fn is_known_hrp(hrp: Seq<char>) -> bool {
    hrp == "ID"@ || hrp == "EX"@ || hrp == "OH"@ || hrp == "RK"@
}

/// Whether `c` may stand in an upper-case bech32 text.
pub open spec fn is_bech32_char(c: char) -> bool {
    ('A' <= c && c <= 'Z') || ('0' <= c && c <= '9')
}

/// `bech32::encode_upper` with `NoChecksum`: the text named `bech32_encoded`. It starts with the
/// human-readable part and the separator `1`, it is made of upper-case letters and digits, and
/// decoding it gives the human-readable part and the bytes back.
#[verifier::external_body]
pub(crate) fn encode_no_checksum(hrp: &str, data: &[u8]) -> (r: String)
    requires
        is_known_hrp(hrp@),
    ensures
        r@ == bech32_encoded(hrp@, data@),
        r@.len() >= hrp@.len() + 1,
        r@.take(hrp@.len() as int) == hrp@,
        r@[hrp@.len() as int] == '1',
        forall|i: int| 0 <= i < r@.len() ==> is_bech32_char(#[trigger] r@[i]),
        bech32_decoded(r@) == Some((hrp@, data@)),
{
    let part = bitcoin::bech32::Hrp::parse(hrp).expect("two letters");
    bitcoin::bech32::encode_upper::<bitcoin::bech32::NoChecksum>(part, data).expect("no limit")
}

/// `bech32::primitives::decode::CheckedHrpstring::new` with `NoChecksum`: the human-readable part
/// and the bytes that the text stands for, named `bech32_decoded`; none where it is no bech32
/// text.
#[verifier::external_body]
pub(crate) fn decode_no_checksum(s: &str) -> (r: Option<(String, Vec<u8>)>)
    ensures
        match bech32_decoded(s@) {
            Some((hrp, data)) => r matches Some(p) && p.0@ == hrp && p.1@ == data,
            None => r is None,
        },
{
    let text = bitcoin::bech32::primitives::decode::CheckedHrpstring::new::<
        bitcoin::bech32::NoChecksum,
    >(s).ok()?;
    Some((text.hrp().to_string(), text.byte_iter().collect()))
}

} // verus!
