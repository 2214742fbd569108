//! Session parameters broadcast by the session creator.
//!
//! Participants check the final transaction against these values before they sign.
//!
//! Wire format (version 0):
//! - magic `mpp0` (4 bytes)
//! - version `0` (1 byte)
//! - `tx_version` (i32, little endian)
//! - `lock_time` (u32, little endian, consensus encoding)
//! - minimum feerate in sat/vB (u64, little endian)
//! - `input_sequence` (u32, little endian)
//! - allowed input types (a u8 count, then one discriminant byte each)
//! - session expiry: `0` for none, `1` and a u32 (little endian) unix time otherwise
//! - session secret (32 bytes)
use std::sync::Arc;

use bitcoin_hpke::rand_core::RngCore;

use vstd::prelude::*;
use vstd::slice::*;

use crate::bytes::{
    all_zero, append_bytes, bytes_equal, i32_from_le, i32_le, i32_of_le, i32_to_le, is_all_zero,
    lemma_i32_le_round_trip, lemma_i32_of_le_round_trip, lemma_u32_le_round_trip,
    lemma_u32_of_le_round_trip, lemma_u64_le_round_trip, lemma_u64_of_le_round_trip, to_array,
    u32_from_le, u32_le, u32_of_le, u32_to_le, u64_from_le, u64_le, u64_of_le, u64_to_le, zeros,
};
use crate::text::{concat, decimal, decimal_string, ends_with, lemma_ends_with};

verus! {

/// Length of a session secret in bytes.
pub const SESSION_SECRET_LEN: usize = 32;

const VERSION: u8 = 0;

const MAX_ALLOWED_INPUT_TYPES: usize = 5;

/// The magic bytes `mpp0`.
pub open spec fn magic() -> Seq<u8> {
    seq![109u8, 112, 112, 48]
}

/// Script categories permitted for inputs in the session.
#[derive(Debug, Clone, Copy, PartialEq, Eq, Hash, Structural)]
pub enum InputScriptType {
    P2pkh,
    P2sh,
    P2wpkh,
    P2wsh,
    P2tr,
}

impl InputScriptType {
    /// The byte that stands for this type on the wire.
    pub open spec fn spec_discriminant(self) -> u8 {
        match self {
            InputScriptType::P2pkh => 0,
            InputScriptType::P2sh => 1,
            InputScriptType::P2wpkh => 2,
            InputScriptType::P2wsh => 3,
            InputScriptType::P2tr => 4,
        }
    }

    /// The type that `byte` stands for on the wire.
    pub open spec fn of_byte(byte: u8) -> Option<InputScriptType> {
        if byte == 0 {
            Some(InputScriptType::P2pkh)
        } else if byte == 1 {
            Some(InputScriptType::P2sh)
        } else if byte == 2 {
            Some(InputScriptType::P2wpkh)
        } else if byte == 3 {
            Some(InputScriptType::P2wsh)
        } else if byte == 4 {
            Some(InputScriptType::P2tr)
        } else {
            None
        }
    }

    pub fn from_discriminant(byte: u8) -> (r: Result<Self, SessionParametersError>)
        ensures
            r == (match Self::of_byte(byte) {
                Some(t) => Ok::<Self, SessionParametersError>(t),
                None => Err(SessionParametersError::UnknownInputType(byte)),
            }),
    {
        Ok(
            match byte {
                0 => Self::P2pkh,
                1 => Self::P2sh,
                2 => Self::P2wpkh,
                3 => Self::P2wsh,
                4 => Self::P2tr,
                _ => return Err(SessionParametersError::UnknownInputType(byte)),
            },
        )
    }

    pub fn discriminant(self) -> (r: u8)
        ensures
            r == self.spec_discriminant(),
            Self::of_byte(r) == Some(self),
    {
        match self {
            Self::P2pkh => 0,
            Self::P2sh => 1,
            Self::P2wpkh => 2,
            Self::P2wsh => 3,
            Self::P2tr => 4,
        }
    }

    /// The name of the variant.
    pub open spec fn spec_name(self) -> Seq<char> {
        match self {
            InputScriptType::P2pkh => "P2pkh"@,
            InputScriptType::P2sh => "P2sh"@,
            InputScriptType::P2wpkh => "P2wpkh"@,
            InputScriptType::P2wsh => "P2wsh"@,
            InputScriptType::P2tr => "P2tr"@,
        }
    }

    /// The name of the variant.
    pub fn name(self) -> (r: &'static str)
        ensures
            r@ == self.spec_name(),
    {
        match self {
            Self::P2pkh => "P2pkh",
            Self::P2sh => "P2sh",
            Self::P2wpkh => "P2wpkh",
            Self::P2wsh => "P2wsh",
            Self::P2tr => "P2tr",
        }
    }
}

/// Parameters fixed by the session creator before the multiparty session opens.
#[derive(Debug, PartialEq, Eq)]
pub struct SessionParameters {
    /// Global `nVersion` for the collaborative transaction.
    pub tx_version: i32,
    /// Global `nLockTime` (block height or unix time), in consensus encoding.
    pub lock_time: u32,
    /// Minimum feerate each participant must meet for their contributed weight (sat/kwu).
    pub min_feerate: u64,
    /// Required `nSequence` on contributed inputs, in consensus encoding.
    pub input_sequence: u32,
    /// Allowed input script categories.
    pub allowed_input_types: Arc<Vec<InputScriptType>>,
    /// Optional session expiration (`T_session`), as a unix timestamp.
    pub session_expiry: Option<u32>,
    /// Shared secret for the collaborative directory mailbox chain.
    pub session_secret: [u8; 32],
}

/// What session parameters say.
pub struct ParametersModel {
    pub tx_version: i32,
    pub lock_time: u32,
    pub min_feerate: u64,
    pub input_sequence: u32,
    pub allowed_input_types: Seq<InputScriptType>,
    pub session_expiry: Option<u32>,
    pub session_secret: Seq<u8>,
}

impl View for SessionParameters {
    type V = ParametersModel;

    open spec fn view(&self) -> ParametersModel {
        ParametersModel {
            tx_version: self.tx_version,
            lock_time: self.lock_time,
            min_feerate: self.min_feerate,
            input_sequence: self.input_sequence,
            allowed_input_types: self.allowed_input_types@,
            session_expiry: self.session_expiry,
            session_secret: self.session_secret@,
        }
    }
}

impl Clone for SessionParameters {
    fn clone(&self) -> (r: Self)
        ensures
            r == *self,
    {
        SessionParameters {
            tx_version: self.tx_version,
            lock_time: self.lock_time,
            min_feerate: self.min_feerate,
            input_sequence: self.input_sequence,
            allowed_input_types: self.allowed_input_types.clone(),
            session_expiry: self.session_expiry,
            session_secret: self.session_secret,
        }
    }
}

/// Errors when parsing session parameters.
#[derive(Debug, Clone, Copy, PartialEq, Eq)]
pub enum SessionParametersError {
    InvalidMagic,
    UnsupportedVersion(u8),
    Truncated,
    TrailingBytes(usize),
    InvalidFeeRate,
    EmptyAllowedInputTypes,
    TooManyAllowedInputTypes(usize),
    UnknownInputType(u8),
    DuplicateInputType(InputScriptType),
    InvalidSessionExpiryFlag(u8),
    InvalidSessionSecret,
}

impl SessionParametersError {
    /// The message shown for this error.
    pub open spec fn spec_message(self) -> Seq<char> {
        match self {
            SessionParametersError::InvalidMagic => "invalid session parameters magic"@,
            SessionParametersError::UnsupportedVersion(v) =>
                "unsupported session parameters version "@ + decimal(v as nat),
            SessionParametersError::Truncated => "truncated session parameters"@,
            SessionParametersError::TrailingBytes(n) =>
                "trailing bytes ("@ + decimal(n as nat) + ")"@,
            SessionParametersError::InvalidFeeRate => "invalid minimum feerate"@,
            SessionParametersError::EmptyAllowedInputTypes =>
                "allowed input types must not be empty"@,
            SessionParametersError::TooManyAllowedInputTypes(n) =>
                "too many allowed input types ("@ + decimal(n as nat) + ")"@,
            SessionParametersError::UnknownInputType(b) =>
                "unknown input script type "@ + decimal(b as nat),
            SessionParametersError::DuplicateInputType(t) =>
                "duplicate allowed input type "@ + t.spec_name(),
            SessionParametersError::InvalidSessionExpiryFlag(b) =>
                "invalid session expiry flag "@ + decimal(b as nat),
            SessionParametersError::InvalidSessionSecret =>
                "session secret must be 32 non-zero random bytes"@,
        }
    }

    /// The message shown for this error.
    pub fn message(&self) -> (r: String)
        ensures
            r@ == self.spec_message(),
    {
        match self {
            Self::InvalidMagic => "invalid session parameters magic".to_owned(),
            Self::UnsupportedVersion(v) => concat(
                "unsupported session parameters version ",
                &decimal_string(*v as u64),
            ),
            Self::Truncated => "truncated session parameters".to_owned(),
            Self::TrailingBytes(n) => concat(
                &concat("trailing bytes (", &decimal_string(*n as u64)),
                ")",
            ),
            Self::InvalidFeeRate => "invalid minimum feerate".to_owned(),
            Self::EmptyAllowedInputTypes => "allowed input types must not be empty".to_owned(),
            Self::TooManyAllowedInputTypes(n) => concat(
                &concat("too many allowed input types (", &decimal_string(*n as u64)),
                ")",
            ),
            Self::UnknownInputType(b) => concat(
                "unknown input script type ",
                &decimal_string(*b as u64),
            ),
            Self::DuplicateInputType(t) => concat("duplicate allowed input type ", t.name()),
            Self::InvalidSessionExpiryFlag(b) => concat(
                "invalid session expiry flag ",
                &decimal_string(*b as u64),
            ),
            Self::InvalidSessionSecret =>
                "session secret must be 32 non-zero random bytes".to_owned(),
        }
    }
}

/// `RngCore::fill_bytes` on `rand_core`'s `OsRng`: 32 bytes from the operating system's
/// generator. Nothing is claimed of their values.
#[verifier::external_body]
pub(crate) fn os_random_32() -> [u8; 32] {
    let mut bytes = [0u8; 32];
    bitcoin_hpke::rand_core::OsRng.fill_bytes(&mut bytes);
    bytes
}

/// `bitcoin::FeeRate::from_sat_per_vb`: one sat/vB is 250 sat/kwu; none where the product does
/// not fit in 64 bits.
#[verifier::external_body]
fn feerate_from_sat_per_vb(sat_vb: u64) -> (r: Option<u64>)
    ensures
        r == kwu_of_vb(sat_vb),
{
    bitcoin::FeeRate::from_sat_per_vb(sat_vb).map(|rate| rate.to_sat_per_kwu())
}

/// `bitcoin::FeeRate::to_sat_per_vb_floor`: the rate in whole sat/vB, rounded down.
#[verifier::external_body]
fn feerate_to_sat_per_vb_floor(sat_kwu: u64) -> (r: u64)
    ensures
        r == sat_kwu / 250,
{
    bitcoin::FeeRate::from_sat_per_kwu(sat_kwu).to_sat_per_vb_floor()
}

/// A rate in sat/vB as sat/kwu, where it fits.
pub open spec fn kwu_of_vb(sat_vb: u64) -> Option<u64> {
    if sat_vb * 250 <= u64::MAX {
        Some((sat_vb * 250) as u64)
    } else {
        None
    }
}

/// Draw a new session secret. It is never all zero, so participants accept it.
pub fn generate_session_secret() -> (r: [u8; 32])
    ensures
        !all_zero(r@),
{
    session_secret_from(os_random_32())
}

/// The session secret that some drawn bytes stand for: the bytes themselves, but for all zeros,
/// which are no secret and give the number one instead.
pub open spec fn secret_of(drawn: Seq<u8>) -> Seq<u8> {
    if all_zero(drawn) {
        drawn.update(31, 1)
    } else {
        drawn
    }
}

/// The session secret that some drawn bytes stand for.
pub fn session_secret_from(drawn: [u8; 32]) -> (r: [u8; 32])
    ensures
        r@ == secret_of(drawn@),
        !all_zero(r@),
{
    let mut secret = drawn;
    if is_all_zero(&secret) {
        secret[31] = 1;
        assert(secret@[31] == 1);
    }
    secret
}

/// The discriminant bytes of some input types.
pub open spec fn type_bytes(types: Seq<InputScriptType>) -> Seq<u8> {
    types.map_values(|t: InputScriptType| t.spec_discriminant())
}

/// Whether `types[i]` occurs again after position `i`.
pub open spec fn occurs_again(types: Seq<InputScriptType>, i: int) -> bool {
    exists|j: int| i < j < types.len() && #[trigger] types[j] == types[i]
}

/// The first type that occurs again later in the list, if any, looking from position `from` on.
pub open spec fn first_duplicate(types: Seq<InputScriptType>, from: int) -> Option<InputScriptType>
    decreases types.len() - from,
{
    if from < 0 || from >= types.len() {
        None
    } else if occurs_again(types, from) {
        Some(types[from])
    } else {
        first_duplicate(types, from + 1)
    }
}

/// What reading `count` type bytes off the front of `bytes` gives.
pub open spec fn decode_types(bytes: Seq<u8>, count: nat) -> Result<
    Seq<InputScriptType>,
    SessionParametersError,
>
    decreases count,
{
    if count == 0 {
        Ok(Seq::empty())
    } else {
        match decode_types(bytes, (count - 1) as nat) {
            Err(e) => Err(e),
            Ok(types) => if bytes.len() < count {
                Err(SessionParametersError::Truncated)
            } else {
                match InputScriptType::of_byte(bytes[count - 1]) {
                    Some(t) => Ok(types.push(t)),
                    None => Err(SessionParametersError::UnknownInputType(bytes[count - 1])),
                }
            },
        }
    }
}

/// Type bytes that were read were there.
proof fn lemma_decode_types_reads(bytes: Seq<u8>, count: nat)
    requires
        decode_types(bytes, count) is Ok,
    ensures
        count <= bytes.len(),
        decode_types(bytes, count)->Ok_0.len() == count,
        type_bytes(decode_types(bytes, count)->Ok_0) == bytes.take(count as int),
    decreases count,
{
    if count > 0 {
        lemma_decode_types_reads(bytes, (count - 1) as nat);
        assert(type_bytes(decode_types(bytes, count)->Ok_0) =~= bytes.take(count as int));
    } else {
        assert(type_bytes(decode_types(bytes, count)->Ok_0) =~= bytes.take(count as int));
    }
}

/// A failure to read some type bytes is a failure to read more of them.
proof fn lemma_decode_types_fails(bytes: Seq<u8>, few: nat, many: nat)
    requires
        few <= many,
        decode_types(bytes, few) is Err,
    ensures
        decode_types(bytes, many) == decode_types(bytes, few),
    decreases many,
{
    if few < many {
        lemma_decode_types_fails(bytes, few, (many - 1) as nat);
    }
}

impl ParametersModel {
    /// The session expiry on the wire.
    pub open spec fn expiry_bytes(self) -> Seq<u8> {
        match self.session_expiry {
            None => seq![0u8],
            Some(t) => seq![1u8] + u32_le(t),
        }
    }

    /// The version-0 wire encoding.
    #[verifier::opaque]
    pub open spec fn wire(self) -> Seq<u8> {
        magic() + seq![0u8] + i32_le(self.tx_version) + u32_le(
            self.lock_time,
        ) + u64_le((self.min_feerate / 250) as u64) + u32_le(
            self.input_sequence,
        ) + seq![self.allowed_input_types.len() as u8] + type_bytes(self.allowed_input_types)
            + self.expiry_bytes() + self.session_secret
    }

    /// Whether these are parameters that a participant accepts: at least one sat/vB, one to
    /// five distinct input types, and a secret that is not all zero.
    pub open spec fn acceptable(self) -> bool {
        &&& self.min_feerate >= 250
        &&& 1 <= self.allowed_input_types.len() <= 5
        &&& self.allowed_input_types.no_duplicates()
        &&& self.session_secret.len() == 32
        &&& !all_zero(self.session_secret)
    }

    /// The same parameters with the feerate rounded down to whole sat/vB.
    pub open spec fn rounded(self) -> ParametersModel {
        ParametersModel { min_feerate: (self.min_feerate / 250 * 250) as u64, ..self }
    }
}

/// What the last part of an encoding, from the session expiry flag at `at` on, gives:
/// the expiry, the secret, and the position after them.
pub open spec fn decode_tail(bytes: Seq<u8>, at: int) -> Result<
    (Option<u32>, Seq<u8>, int),
    SessionParametersError,
> {
    let n = bytes.len();
    if at >= n {
        Err(SessionParametersError::Truncated)
    } else if bytes[at] > 1 {
        Err(SessionParametersError::InvalidSessionExpiryFlag(bytes[at]))
    } else {
        let secret_at = if bytes[at] == 0 { at + 1 } else { at + 5 };
        if n < secret_at + 32 {
            Err(SessionParametersError::Truncated)
        } else {
            let secret = bytes.subrange(secret_at, secret_at + 32);
            if all_zero(secret) {
                Err(SessionParametersError::InvalidSessionSecret)
            } else {
                let expiry = if bytes[at] == 0 {
                    None
                } else {
                    Some(u32_of_le(bytes.subrange(at + 1, at + 5)))
                };
                Ok((expiry, secret, secret_at + 32))
            }
        }
    }
}

/// What reading `bytes` as version-0 session parameters gives.
#[verifier::opaque]
pub open spec fn decode(bytes: Seq<u8>) -> Result<ParametersModel, SessionParametersError> {
    let n = bytes.len();
    if n < 4 {
        Err(SessionParametersError::Truncated)
    } else if bytes.subrange(0, 4) != magic() {
        Err(SessionParametersError::InvalidMagic)
    } else if n < 5 {
        Err(SessionParametersError::Truncated)
    } else if bytes[4] != 0 {
        Err(SessionParametersError::UnsupportedVersion(bytes[4]))
    } else if n < 21 {
        Err(SessionParametersError::Truncated)
    } else {
        let sat_vb = u64_of_le(bytes.subrange(13, 21));
        if sat_vb == 0 || kwu_of_vb(sat_vb) is None {
            Err(SessionParametersError::InvalidFeeRate)
        } else if n < 26 {
            Err(SessionParametersError::Truncated)
        } else if bytes[25] == 0 {
            Err(SessionParametersError::EmptyAllowedInputTypes)
        } else if bytes[25] > 5 {
            Err(SessionParametersError::TooManyAllowedInputTypes(bytes[25] as usize))
        } else {
            let count = bytes[25] as nat;
            match decode_types(bytes.skip(26), count) {
                Err(e) => Err(e),
                Ok(types) => match first_duplicate(types, 0) {
                    Some(t) => Err(SessionParametersError::DuplicateInputType(t)),
                    None => match decode_tail(bytes, 26 + count as int) {
                        Err(e) => Err(e),
                        Ok((expiry, secret, end)) => if end < n {
                            Err(SessionParametersError::TrailingBytes((n - end) as usize))
                        } else {
                            Ok(
                                ParametersModel {
                                    tx_version: i32_of_le(bytes.subrange(5, 9)),
                                    lock_time: u32_of_le(bytes.subrange(9, 13)),
                                    min_feerate: kwu_of_vb(sat_vb)->0,
                                    input_sequence: u32_of_le(
                                        bytes.subrange(21, 25),
                                    ),
                                    allowed_input_types: types,
                                    session_expiry: expiry,
                                    session_secret: secret,
                                },
                            )
                        },
                    },
                },
            }
        }
    }
}

/// What reading a message-A body as session parameters gives: an encoding, followed by any
/// number of zero bytes.
pub open spec fn decode_padded(bytes: Seq<u8>) -> Result<ParametersModel, SessionParametersError> {
    match decode(bytes) {
        Err(SessionParametersError::TrailingBytes(trailing)) => {
            let end = bytes.len() - trailing;
            if all_zero(bytes.skip(end)) {
                decode(bytes.take(end))
            } else {
                Err(SessionParametersError::TrailingBytes(trailing))
            }
        },
        other => other,
    }
}

/// Takes one byte off the front.
fn take_u8(cursor: &mut &[u8]) -> (r: Result<u8, SessionParametersError>)
    ensures
        old(cursor)@.len() == 0 ==> r == Err::<u8, _>(SessionParametersError::Truncated)
            && final(cursor)@ == old(cursor)@,
        old(cursor)@.len() > 0 ==> r == Ok::<_, SessionParametersError>(old(cursor)@[0])
            && final(cursor)@ == old(cursor)@.skip(1),
{
    if cursor.is_empty() {
        return Err(SessionParametersError::Truncated);
    }
    let byte = cursor[0];
    *cursor = slice_subrange(*cursor, 1, cursor.len());
    Ok(byte)
}

/// Takes `N` bytes off the front.
fn take_fixed<const N: usize>(cursor: &mut &[u8]) -> (r: Result<[u8; N], SessionParametersError>)
    ensures
        old(cursor)@.len() < N ==> r == Err::<[u8; N], _>(SessionParametersError::Truncated)
            && final(cursor)@ == old(cursor)@,
        old(cursor)@.len() >= N ==> r is Ok && r->Ok_0@ == old(cursor)@.take(N as int)
            && final(cursor)@ == old(cursor)@.skip(N as int),
{
    if cursor.len() < N {
        return Err(SessionParametersError::Truncated);
    }
    let (head, tail) = cursor.split_at(N);
    *cursor = tail;
    Ok(to_array(head))
}

/// Takes `count` type bytes off the front.
fn take_input_types(cursor: &mut &[u8], count: usize) -> (r: Result<
    Vec<InputScriptType>,
    SessionParametersError,
>)
    ensures
        match decode_types(old(cursor)@, count as nat) {
            Ok(types) => r is Ok && r->Ok_0@ == types && final(cursor)@ == old(cursor)@.skip(
                count as int,
            ),
            Err(e) => r == Err::<Vec<InputScriptType>, _>(e),
        },
{
    let ghost bytes = cursor@;
    let mut types: Vec<InputScriptType> = Vec::new();
    let mut i: usize = 0;
    assert(bytes.skip(0) =~= bytes);
    while i < count
        invariant
            i <= count,
            i <= bytes.len(),
            decode_types(bytes, i as nat) == Ok::<_, SessionParametersError>(types@),
            cursor@ == bytes.skip(i as int),
            bytes == old(cursor)@,
        ensures
            i == count,
            i <= bytes.len(),
            decode_types(bytes, count as nat) == Ok::<_, SessionParametersError>(types@),
            cursor@ == bytes.skip(count as int),
        decreases count - i,
    {
        proof {
            if decode_types(bytes, (i + 1) as nat) is Err {
                lemma_decode_types_fails(bytes, (i + 1) as nat, count as nat);
            }
        }
        let byte: u8 = take_u8(cursor)?;
        let ty = InputScriptType::from_discriminant(byte)?;
        types.push(ty);
        assert(cursor@ =~= bytes.skip(i + 1));
        i += 1;
    }
    Ok(types)
}

/// Refuses a list in which a type occurs twice.
fn ensure_unique_input_types(types: &[InputScriptType]) -> (r: Result<(), SessionParametersError>)
    ensures
        r == (match first_duplicate(types@, 0) {
            Some(t) => Err::<(), _>(SessionParametersError::DuplicateInputType(t)),
            None => Ok(()),
        }),
{
    let mut i: usize = 0;
    while i < types.len()
        invariant
            i <= types@.len(),
            first_duplicate(types@, 0) == first_duplicate(types@, i as int),
        decreases types@.len() - i,
    {
        let mut j: usize = i + 1;
        while j < types.len()
            invariant
                i < j <= types@.len(),
                first_duplicate(types@, 0) == first_duplicate(types@, i as int),
                forall|k: int| i < k < j ==> types@[k] != types@[i as int],
            decreases types@.len() - j,
        {
            if types[j] == types[i] {
                assert(occurs_again(types@, i as int));
                return Err(SessionParametersError::DuplicateInputType(types[i]));
            }
            j += 1;
        }
        assert(!occurs_again(types@, i as int));
        i += 1;
    }
    Ok(())
}

impl SessionParameters {
    pub fn new(
        tx_version: i32,
        lock_time: u32,
        min_feerate: u64,
        input_sequence: u32,
        allowed_input_types: Vec<InputScriptType>,
        session_expiry: Option<u32>,
    ) -> (r: Self)
        ensures
            r.tx_version == tx_version,
            r.lock_time == lock_time,
            r.min_feerate == min_feerate,
            r.input_sequence == input_sequence,
            *r.allowed_input_types == allowed_input_types,
            r.session_expiry == session_expiry,
            !all_zero(r.session_secret@),
    {
        Self {
            tx_version,
            lock_time,
            min_feerate,
            input_sequence,
            allowed_input_types: Arc::new(allowed_input_types),
            session_expiry,
            session_secret: generate_session_secret(),
        }
    }

    /// Serialize to the version-0 wire encoding.
    pub fn to_bytes(&self) -> (out: Vec<u8>)
        requires
            self.allowed_input_types@.len() <= 255,
        ensures
            out@ == self@.wire(),
    {
        reveal(ParametersModel::wire);
        let mut out: Vec<u8> = Vec::new();
        append_bytes(&mut out, &[109u8, 112, 112, 48]);
        assert(out@ =~= magic());
        out.push(VERSION);
        append_bytes(&mut out, &i32_to_le(self.tx_version));
        append_bytes(&mut out, &u32_to_le(self.lock_time));
        append_bytes(&mut out, &u64_to_le(feerate_to_sat_per_vb_floor(self.min_feerate)));
        append_bytes(&mut out, &u32_to_le(self.input_sequence));
        let count: usize = self.allowed_input_types.len();
        out.push(count as u8);
        let ghost head = out@;
        let ghost types = self.allowed_input_types@;
        let mut i: usize = 0;
        while i < count
            invariant
                i <= count,
                count == types.len(),
                types == self.allowed_input_types@,
                out@ == head + type_bytes(types.take(i as int)),
            decreases count - i,
        {
            out.push(self.allowed_input_types[i].discriminant());
            assert(type_bytes(types.take(i + 1)) =~= type_bytes(types.take(i as int)).push(
                types[i as int].spec_discriminant(),
            ));
            assert(out@ =~= head + type_bytes(types.take(i + 1)));
            i += 1;
        }
        assert(types.take(i as int) =~= types);
        match self.session_expiry {
            None => out.push(0),
            Some(expiry) => {
                out.push(1);
                append_bytes(&mut out, &u32_to_le(expiry));
            },
        }
        append_bytes(&mut out, &self.session_secret);
        assert(out@ =~= self@.wire());
        out
    }

    /// Deserialize from the version-0 wire encoding.
    pub fn from_bytes(bytes: &[u8]) -> (r: Result<Self, SessionParametersError>)
        ensures
            match decode(bytes@) {
                Ok(m) => r is Ok && r->Ok_0@ == m,
                Err(e) => r == Err::<Self, _>(e),
            },
    {
        reveal(decode);
        let mut cursor = bytes;
        let header = take_fixed::<4>(&mut cursor)?;
        assert(header@ =~= bytes@.subrange(0, 4));
        assert([109u8, 112, 112, 48]@ =~= magic());
        if !bytes_equal(&header, &[109u8, 112, 112, 48]) {
            return Err(SessionParametersError::InvalidMagic);
        }
        assert(cursor@ =~= bytes@.skip(4));
        let version: u8 = take_u8(&mut cursor)?;
        if version != VERSION {
            return Err(SessionParametersError::UnsupportedVersion(version));
        }
        assert(cursor@ =~= bytes@.skip(5));
        let tx_version_bytes = take_fixed::<4>(&mut cursor)?;
        assert(tx_version_bytes@ =~= bytes@.subrange(5, 9));
        let tx_version: i32 = i32_from_le(&tx_version_bytes);
        assert(cursor@ =~= bytes@.skip(9));
        let lock_time_bytes = take_fixed::<4>(&mut cursor)?;
        assert(lock_time_bytes@ =~= bytes@.subrange(9, 13));
        let lock_time: u32 = u32_from_le(&lock_time_bytes);
        assert(cursor@ =~= bytes@.skip(13));
        let feerate_bytes = take_fixed::<8>(&mut cursor)?;
        assert(feerate_bytes@ =~= bytes@.subrange(13, 21));
        let min_feerate_sat_per_vb: u64 = u64_from_le(&feerate_bytes);
        if min_feerate_sat_per_vb == 0 {
            return Err(SessionParametersError::InvalidFeeRate);
        }
        let min_feerate: u64 = match feerate_from_sat_per_vb(min_feerate_sat_per_vb) {
            Some(rate) => rate,
            None => return Err(SessionParametersError::InvalidFeeRate),
        };
        assert(cursor@ =~= bytes@.skip(21));
        let sequence_bytes = take_fixed::<4>(&mut cursor)?;
        assert(sequence_bytes@ =~= bytes@.subrange(21, 25));
        let input_sequence: u32 = u32_from_le(&sequence_bytes);
        assert(cursor@ =~= bytes@.skip(25));
        let count: usize = take_u8(&mut cursor)? as usize;
        if count == 0 {
            return Err(SessionParametersError::EmptyAllowedInputTypes);
        }
        if count > MAX_ALLOWED_INPUT_TYPES {
            return Err(SessionParametersError::TooManyAllowedInputTypes(count));
        }
        assert(cursor@ =~= bytes@.skip(26));
        let allowed_input_types = take_input_types(&mut cursor, count)?;
        ensure_unique_input_types(&allowed_input_types)?;
        let ghost at = 26 + count as int;
        proof {
            lemma_decode_types_reads(bytes@.skip(26), count as nat);
        }
        assert(cursor@ =~= bytes@.skip(at));
        let flag: u8 = take_u8(&mut cursor)?;
        assert(cursor@ =~= bytes@.skip(at + 1));
        let session_expiry: Option<u32> = match flag {
            0 => None,
            1 => {
                let expiry_bytes = take_fixed::<4>(&mut cursor)?;
                assert(expiry_bytes@ =~= bytes@.subrange(at + 1, at + 5));
                assert(cursor@ =~= bytes@.skip(at + 5));
                Some(u32_from_le(&expiry_bytes))
            },
            flag => return Err(SessionParametersError::InvalidSessionExpiryFlag(flag)),
        };
        let ghost secret_at = if flag == 0 { at + 1 } else { at + 5 };
        let session_secret = take_fixed::<32>(&mut cursor)?;
        assert(session_secret@ =~= bytes@.subrange(secret_at, secret_at + 32));
        if is_all_zero(&session_secret) {
            return Err(SessionParametersError::InvalidSessionSecret);
        }
        assert(cursor@ =~= bytes@.skip(secret_at + 32));
        if !cursor.is_empty() {
            return Err(SessionParametersError::TrailingBytes(cursor.len()));
        }
        Ok(
            Self {
                tx_version,
                lock_time,
                min_feerate,
                input_sequence,
                allowed_input_types: Arc::new(allowed_input_types),
                session_expiry,
                session_secret,
            },
        )
    }

    /// Deserialize session parameters from a message-A body, in which zero bytes may follow the
    /// encoding.
    pub fn from_message_a_body(bytes: &[u8]) -> (r: Result<Self, SessionParametersError>)
        ensures
            match decode_padded(bytes@) {
                Ok(m) => r is Ok && r->Ok_0@ == m,
                Err(e) => r == Err::<Self, _>(e),
            },
    {
        proof {
            assert(bytes@.len() == bytes.len());
            lemma_trailing_bytes_are_there(bytes@);
        }
        match Self::from_bytes(bytes) {
            Ok(params) => Ok(params),
            Err(SessionParametersError::TrailingBytes(trailing)) => {
                let encoded_len: usize = match bytes.len().checked_sub(trailing) {
                    Some(len) => len,
                    None => return Err(SessionParametersError::TrailingBytes(trailing)),
                };
                let padding = slice_subrange(bytes, encoded_len, bytes.len());
                assert(padding@ =~= bytes@.skip(encoded_len as int));
                if is_all_zero(padding) {
                    let encoded = slice_subrange(bytes, 0, encoded_len);
                    assert(encoded@ =~= bytes@.take(encoded_len as int));
                    Self::from_bytes(encoded)
                } else {
                    Err(SessionParametersError::TrailingBytes(trailing))
                }
            },
            Err(err) => Err(err),
        }
    }
}

/// Which errors the type bytes give.
proof fn lemma_decode_types_errors(bytes: Seq<u8>, count: nat)
    ensures
        decode_types(bytes, count) matches Err(e) ==> e is Truncated || e is UnknownInputType,
    decreases count,
{
    if count > 0 {
        lemma_decode_types_errors(bytes, (count - 1) as nat);
    }
}

/// Trailing bytes that are counted are there.
proof fn lemma_trailing_bytes_are_there(bytes: Seq<u8>)
    requires
        bytes.len() <= usize::MAX,
    ensures
        decode(bytes) matches Err(SessionParametersError::TrailingBytes(n)) ==> n <= bytes.len(),
{
    reveal(decode);
    if bytes.len() >= 26 {
        lemma_decode_types_errors(bytes.skip(26), bytes[25] as nat);
    }
}

/// A list without duplicates is what the check for duplicates lets pass.
proof fn lemma_no_duplicates(types: Seq<InputScriptType>, from: int)
    requires
        0 <= from <= types.len(),
    ensures
        first_duplicate(types, from) is None <==> forall|i: int, j: int|
            from <= i < j < types.len() ==> types[i] != types[j],
    decreases types.len() - from,
{
    if from < types.len() {
        lemma_no_duplicates(types, from + 1);
        if occurs_again(types, from) {
            let j = choose|j: int| from < j < types.len() && #[trigger] types[j] == types[from];
            assert(types[from] == types[j]);
        }
    }
}

/// Reading the discriminants of some types gives the types back.
proof fn lemma_decode_types_of_bytes(bytes: Seq<u8>, types: Seq<InputScriptType>, count: nat)
    requires
        count <= types.len() <= bytes.len(),
        bytes.take(types.len() as int) == type_bytes(types),
    ensures
        decode_types(bytes, count) == Ok::<_, SessionParametersError>(types.take(count as int)),
    decreases count,
{
    if count > 0 {
        lemma_decode_types_of_bytes(bytes, types, (count - 1) as nat);
        assert(bytes[count - 1] == bytes.take(types.len() as int)[count - 1]);
        assert(bytes[count - 1] == types[count - 1].spec_discriminant());
        assert(types.take(count as int) =~= types.take(count - 1).push(types[count - 1]));
    } else {
        assert(types.take(0) =~= Seq::empty());
    }
}

/// Where the fields of an encoding stand, whatever follows it.
proof fn lemma_fields_of_wire(m: ParametersModel, tail: Seq<u8>)
    requires
        m.acceptable(),
    ensures
        ({
            let b = m.wire() + tail;
            let count = m.allowed_input_types.len();
            let at = 26 + count as int;
            &&& b.subrange(0, 4) == magic()
            &&& b[4] == 0
            &&& b.subrange(5, 9) == i32_le(m.tx_version)
            &&& b.subrange(9, 13) == u32_le(m.lock_time)
            &&& b.subrange(13, 21) == u64_le((m.min_feerate / 250) as u64)
            &&& b.subrange(21, 25) == u32_le(m.input_sequence)
            &&& b[25] == count as u8
            &&& b.skip(26).len() >= count
            &&& b.skip(26).take(count as int) == type_bytes(m.allowed_input_types)
            &&& match m.session_expiry {
                None => b.len() == at + 33 + tail.len() && b[at] == 0 && b.subrange(at + 1, at + 33)
                    == m.session_secret,
                Some(t) => b.len() == at + 37 + tail.len() && b[at] == 1 && b.subrange(
                    at + 1,
                    at + 5,
                ) == u32_le(t) && b.subrange(at + 5, at + 37) == m.session_secret,
            }
        }),
{
    reveal(ParametersModel::wire);
    let b = m.wire() + tail;
    let types = m.allowed_input_types;
    let at = 26 + types.len() as int;
    let sat_vb = (m.min_feerate / 250) as u64;
    let e = seq![types.len() as u8] + type_bytes(types);
    let rest = m.expiry_bytes() + m.session_secret + tail;
    lemma_i32_le_round_trip(m.tx_version);
    lemma_u64_le_round_trip(sat_vb);
    lemma_wire_pieces(
        magic() + seq![0u8],
        i32_le(m.tx_version),
        u32_le(m.lock_time),
        u64_le(sat_vb),
        u32_le(m.input_sequence),
        e,
        rest,
    );
    assert(b =~= magic() + seq![0u8] + i32_le(m.tx_version) + u32_le(m.lock_time) + u64_le(sat_vb)
        + u32_le(m.input_sequence) + e + rest);
    assert(b.subrange(0, 4) =~= b.take(5).subrange(0, 4));
    assert(b.take(5).subrange(0, 4) =~= magic());
    assert(b[4] == b.take(5)[4]);
    assert(b[25] == e[0]);
    assert(b.skip(26).take(types.len() as int) =~= type_bytes(types)) by {
        assert forall|i: int| 0 <= i < types.len() implies #[trigger] b.skip(26)[i]
            == type_bytes(types)[i] by {
            assert(b[25 + (1 + i)] == e[1 + i]);
        }
    }
    assert(b.skip(at) =~= rest);
    assert(b[at] == rest[0]);
    match m.session_expiry {
        None => {
            assert(b.subrange(at + 1, at + 33) =~= rest.subrange(1, 33));
            assert(rest.subrange(1, 33) =~= m.session_secret);
        },
        Some(t) => {
            assert(u32_le(t).len() == 4);
            assert(b.subrange(at + 1, at + 5) =~= rest.subrange(1, 5));
            assert(rest.subrange(1, 5) =~= u32_le(t));
            assert(b.subrange(at + 5, at + 37) =~= rest.subrange(5, 37));
            assert(rest.subrange(5, 37) =~= m.session_secret);
        },
    }
}

/// An encoding followed by more bytes is refused for exactly those bytes; alone, it is read
/// back, with the feerate in whole sat/vB.
proof fn lemma_decode_of_wire_and_tail(m: ParametersModel, tail: Seq<u8>)
    requires
        m.acceptable(),
        tail.len() <= usize::MAX,
    ensures
        decode(m.wire() + tail) == (if tail.len() == 0 {
            Ok::<_, SessionParametersError>(m.rounded())
        } else {
            Err(SessionParametersError::TrailingBytes(tail.len() as usize))
        }),
{
    lemma_u32_le_round_trip(m.lock_time);
    lemma_u64_le_round_trip((m.min_feerate / 250) as u64);
    lemma_u32_le_round_trip(m.input_sequence);
    if let Some(t) = m.session_expiry {
        lemma_u32_le_round_trip(t);
    }
    lemma_i32_le_round_trip(m.tx_version);
    lemma_fields_of_wire(m, tail);
    reveal(decode);
    let b = m.wire() + tail;
    let types = m.allowed_input_types;
    lemma_decode_types_of_bytes(b.skip(26), types, types.len());
    assert(types.take(types.len() as int) =~= types);
    lemma_no_duplicates(types, 0);
}

/// Reading an encoding gives back the parameters that were encoded, with the feerate rounded
/// down to whole sat/vB.
pub proof fn law_decode_inverts_wire(m: ParametersModel)
    requires
        m.acceptable(),
    ensures
        decode(m.wire()) == Ok::<_, SessionParametersError>(m.rounded()),
{
    lemma_decode_of_wire_and_tail(m, Seq::empty());
    assert(m.wire() + Seq::<u8>::empty() =~= m.wire());
}

/// A feerate of whole sat/vB survives the round trip unchanged.
pub proof fn law_whole_feerate_round_trips(m: ParametersModel)
    requires
        m.acceptable(),
        m.min_feerate % 250 == 0,
    ensures
        decode(m.wire()) == Ok::<_, SessionParametersError>(m),
{
    law_decode_inverts_wire(m);
}

/// An encoding with bytes after it is refused, and the refusal counts those bytes.
pub proof fn law_trailing_bytes_are_refused(m: ParametersModel, tail: Seq<u8>)
    requires
        m.acceptable(),
        0 < tail.len() <= usize::MAX,
    ensures
        decode(m.wire() + tail) == Err::<ParametersModel, _>(
            SessionParametersError::TrailingBytes(tail.len() as usize),
        ),
{
    lemma_decode_of_wire_and_tail(m, tail);
}

/// Zero padding after an encoding does not matter in a message-A body.
pub proof fn law_padding_is_ignored(m: ParametersModel, n: nat)
    requires
        m.acceptable(),
        n <= usize::MAX,
    ensures
        decode_padded(m.wire() + zeros(n)) == Ok::<_, SessionParametersError>(m.rounded()),
{
    lemma_decode_of_wire_and_tail(m, zeros(n));
    law_decode_inverts_wire(m);
    let b = m.wire() + zeros(n);
    assert(b.skip(m.wire().len() as int) =~= zeros(n));
    assert(b.take(m.wire().len() as int) =~= m.wire());
}

/// Only one byte string encodes given parameters, and what is read is acceptable: whatever
/// is read back encodes to the bytes it was read from.
pub proof fn law_encoding_is_canonical(bytes: Seq<u8>)
    requires
        decode(bytes) is Ok,
    ensures
        decode(bytes)->Ok_0.acceptable(),
        decode(bytes)->Ok_0.wire() == bytes,
{
    reveal(decode);
    reveal(ParametersModel::wire);
    let m = decode(bytes)->Ok_0;
    let count = bytes[25] as nat;
    let at = 26 + count as int;
    let types = m.allowed_input_types;
    lemma_decode_types_reads(bytes.skip(26), count);
    lemma_no_duplicates(types, 0);
    lemma_i32_of_le_round_trip(bytes.subrange(5, 9));
    lemma_u32_of_le_round_trip(bytes.subrange(9, 13));
    lemma_u64_of_le_round_trip(bytes.subrange(13, 21));
    lemma_u32_of_le_round_trip(bytes.subrange(21, 25));
    let sat_vb = u64_of_le(bytes.subrange(13, 21));
    assert(m.min_feerate / 250 == sat_vb);
    assert(u64_le(sat_vb) == bytes.subrange(13, 21));
    assert(u32_le(m.lock_time) == bytes.subrange(9, 13));
    assert(u32_le(m.input_sequence) == bytes.subrange(21, 25));
    assert(type_bytes(types) == bytes.skip(26).take(count as int));
    assert(type_bytes(types) =~= bytes.subrange(26, at));
    if bytes[at] == 0 {
        assert(m.expiry_bytes() =~= bytes.subrange(at, at + 1));
    } else {
        lemma_u32_of_le_round_trip(bytes.subrange(at + 1, at + 5));
        assert(u32_le(m.session_expiry->0) == bytes.subrange(at + 1, at + 5));
        assert(m.expiry_bytes() =~= bytes.subrange(at, at + 5));
    }
    assert(magic() =~= bytes.subrange(0, 4));
    assert(m.wire() =~= bytes);
}

/// An encoding takes 59 bytes, one more for each input type, and four more with an expiry.
pub(crate) proof fn lemma_wire_is_short(m: ParametersModel)
    requires
        m.session_secret.len() == 32,
    ensures
        m.wire().len() == 59 + m.allowed_input_types.len() + if m.session_expiry is Some {
            4int
        } else {
            0int
        },
{
    reveal(ParametersModel::wire);
    lemma_i32_le_round_trip(m.tx_version);
}

/// The number whose bytes stand in `s` from `at` on, the lowest first.
pub open spec fn low_first(s: Seq<u8>, at: int, n: nat) -> int
    decreases n,
{
    if n == 0 {
        0
    } else {
        s[at] + 256 * low_first(s, at + 1, (n - 1) as nat)
    }
}

/// The number of four bytes.
proof fn lemma_low_first_u32(s: Seq<u8>, at: int, x: u32)
    requires
        0 <= at,
        at + 4 <= s.len(),
        s.subrange(at, at + 4) == u32_le(x),
    ensures
        low_first(s, at, 4) == x,
{
    reveal_with_fuel(low_first, 5);
    let b = s.subrange(at, at + 4);
    assert(b[0] == s[at] && b[1] == s[at + 1] && b[2] == s[at + 2] && b[3] == s[at + 3]);
}

/// The number of eight bytes.
proof fn lemma_low_first_u64(s: Seq<u8>, at: int, x: u64)
    requires
        0 <= at,
        at + 8 <= s.len(),
        s.subrange(at, at + 8) == u64_le(x),
    ensures
        low_first(s, at, 8) == x,
{
    let low = (x % 0x1_0000_0000) as u32;
    let high = (x / 0x1_0000_0000) as u32;
    let b = s.subrange(at, at + 8);
    assert(u32_le(low).len() == 4 && u32_le(high).len() == 4);
    assert(s.subrange(at, at + 4) =~= b.subrange(0, 4));
    assert(b.subrange(0, 4) =~= u32_le(low));
    assert(s.subrange(at + 4, at + 8) =~= b.subrange(4, 8));
    assert(b.subrange(4, 8) =~= u32_le(high));
    lemma_low_first_u32(s, at, low);
    lemma_low_first_u32(s, at + 4, high);
    reveal_with_fuel(low_first, 9);
}

/// How session parameters stand on the wire, byte by byte: `mpp0`; the version 0; the transaction
/// version in two's complement, the lock time, the feerate in whole sat/vB and the sequence number, the
/// lowest byte first; the number of input types and a byte for each; whether there is an expiry, and
/// the expiry; the session secret; and nothing else.
pub proof fn law_parameters_on_the_wire(m: ParametersModel)
    requires
        m.session_secret.len() == 32,
        m.allowed_input_types.len() <= 255,
    ensures
        ({
            let w = m.wire();
            let n = m.allowed_input_types.len() as int;
            &&& w.take(5) == seq![0x6du8, 0x70, 0x70, 0x30, 0]
            &&& low_first(w, 5, 4) == (if m.tx_version < 0 {
                m.tx_version + 0x1_0000_0000
            } else {
                m.tx_version as int
            })
            &&& low_first(w, 9, 4) == m.lock_time
            &&& low_first(w, 13, 8) == m.min_feerate / 250
            &&& low_first(w, 21, 4) == m.input_sequence
            &&& w[25] == n
            &&& forall|i: int|
                0 <= i < n ==> #[trigger] w[26 + i] == (match m.allowed_input_types[i] {
                    InputScriptType::P2pkh => 0,
                    InputScriptType::P2sh => 1,
                    InputScriptType::P2wpkh => 2,
                    InputScriptType::P2wsh => 3,
                    InputScriptType::P2tr => 4u8,
                })
            &&& match m.session_expiry {
                None => w[26 + n] == 0 && w.skip(27 + n) == m.session_secret,
                Some(t) => w[26 + n] == 1 && low_first(w, 27 + n, 4) == t && w.skip(31 + n)
                    == m.session_secret,
            }
        }),
{
    reveal(ParametersModel::wire);
    let w = m.wire();
    let n = m.allowed_input_types.len() as int;
    let sat_vb = (m.min_feerate / 250) as u64;
    let version: u32 = if m.tx_version < 0 {
        (m.tx_version + 0x1_0000_0000) as u32
    } else {
        m.tx_version as u32
    };
    lemma_i32_le_round_trip(m.tx_version);
    lemma_u64_le_round_trip(sat_vb);
    let head = magic() + seq![0u8];
    let a = i32_le(m.tx_version);
    let b = u32_le(m.lock_time);
    let c = u64_le(sat_vb);
    let d = u32_le(m.input_sequence);
    let e = seq![m.allowed_input_types.len() as u8] + type_bytes(m.allowed_input_types);
    let tail = m.expiry_bytes() + m.session_secret;
    lemma_wire_pieces(head, a, b, c, d, e, tail);
    assert(w =~= head + a + b + c + d + e + tail);
    assert(a == u32_le(version));
    lemma_low_first_u32(w, 5, version);
    lemma_low_first_u32(w, 9, m.lock_time);
    lemma_low_first_u64(w, 13, sat_vb);
    lemma_low_first_u32(w, 21, m.input_sequence);
    assert(w.take(5) =~= seq![0x6du8, 0x70, 0x70, 0x30, 0]);
    assert(e[0] == m.allowed_input_types.len() as u8);
    assert forall|i: int| 0 <= i < n implies #[trigger] w[26 + i] == (
    match m.allowed_input_types[i] {
        InputScriptType::P2pkh => 0,
        InputScriptType::P2sh => 1,
        InputScriptType::P2wpkh => 2,
        InputScriptType::P2wsh => 3,
        InputScriptType::P2tr => 4u8,
    }) by {
        assert(w[26 + i] == e[1 + i]);
        assert(e[1 + i] == type_bytes(m.allowed_input_types)[i]);
    }
    assert(w.skip(26 + n) =~= tail);
    match m.session_expiry {
        None => {
            assert(w[26 + n] == tail[0]);
            assert(w.skip(27 + n) =~= m.session_secret);
        },
        Some(t) => {
            assert(u32_le(t).len() == 4);
            assert(w[26 + n] == tail[0]);
            assert(tail.subrange(1, 5) =~= u32_le(t));
            assert(w.subrange(27 + n, 31 + n) =~= tail.subrange(1, 5));
            lemma_low_first_u32(w, 27 + n, t);
            assert(w.skip(31 + n) =~= m.session_secret);
        },
    }
}

/// Where the pieces of an encoding stand.
proof fn lemma_wire_pieces(
    head: Seq<u8>,
    a: Seq<u8>,
    b: Seq<u8>,
    c: Seq<u8>,
    d: Seq<u8>,
    e: Seq<u8>,
    tail: Seq<u8>,
)
    requires
        head.len() == 5,
        a.len() == 4,
        b.len() == 4,
        c.len() == 8,
        d.len() == 4,
    ensures
        ({
            let w = head + a + b + c + d + e + tail;
            &&& w.len() == 25 + e.len() + tail.len()
            &&& w.take(5) == head
            &&& w.subrange(5, 9) == a
            &&& w.subrange(9, 13) == b
            &&& w.subrange(13, 21) == c
            &&& w.subrange(21, 25) == d
            &&& forall|i: int| 0 <= i < e.len() ==> #[trigger] w[25 + i] == e[i]
            &&& w.skip(25 + e.len() as int) == tail
        }),
{
    let w = head + a + b + c + d + e + tail;
    assert(w.take(5) =~= head);
    assert(w.subrange(5, 9) =~= a);
    assert(w.subrange(9, 13) =~= b);
    assert(w.subrange(13, 21) =~= c);
    assert(w.subrange(21, 25) =~= d);
    assert(w.skip(25 + e.len() as int) =~= tail);
}

/// What a participant accepts: a feerate of at least one sat/vB, one to five input types of which none
/// is named twice, and a secret of 32 bytes that are not all zero. Every version, lock time, sequence
/// number and expiry will do.
pub proof fn law_acceptable_parameters(m: ParametersModel)
    ensures
        m.acceptable() <==> {
            &&& m.min_feerate >= 250
            &&& 1 <= m.allowed_input_types.len() <= 5
            &&& forall|i: int, j: int|
                0 <= i < j < m.allowed_input_types.len() ==> m.allowed_input_types[i]
                    != m.allowed_input_types[j]
            &&& m.session_secret.len() == 32
            &&& exists|i: int| 0 <= i < 32 && #[trigger] m.session_secret[i] != 0
        },
        m.rounded().min_feerate == m.min_feerate - m.min_feerate % 250,
        m.rounded().tx_version == m.tx_version,
        m.rounded().lock_time == m.lock_time,
        m.rounded().input_sequence == m.input_sequence,
        m.rounded().allowed_input_types == m.allowed_input_types,
        m.rounded().session_expiry == m.session_expiry,
        m.rounded().session_secret == m.session_secret,
{
}

/// What is refused before the input types are read, and why.
pub proof fn law_refused_heads(bytes: Seq<u8>)
    ensures
        bytes.len() < 4 ==> decode(bytes) == Err::<ParametersModel, _>(
            SessionParametersError::Truncated,
        ),
        bytes.len() >= 4 && bytes.take(4) != seq![0x6du8, 0x70, 0x70, 0x30] ==> decode(bytes)
            == Err::<ParametersModel, _>(SessionParametersError::InvalidMagic),
        bytes.len() >= 5 && bytes.take(4) == seq![0x6du8, 0x70, 0x70, 0x30] && bytes[4] != 0
            ==> decode(bytes) == Err::<ParametersModel, _>(
            SessionParametersError::UnsupportedVersion(bytes[4]),
        ),
        bytes.len() >= 4 && bytes.take(4) == seq![0x6du8, 0x70, 0x70, 0x30] && (bytes.len() >= 5
            ==> bytes[4] == 0) ==> {
            &&& bytes.len() < 21 ==> decode(bytes) == Err::<ParametersModel, _>(
                SessionParametersError::Truncated,
            )
            &&& bytes.len() >= 21 && (low_first(bytes, 13, 8) == 0 || low_first(bytes, 13, 8)
                > u64::MAX / 250) ==> decode(bytes) == Err::<ParametersModel, _>(
                SessionParametersError::InvalidFeeRate,
            )
            &&& bytes.len() >= 21 && 0 < low_first(bytes, 13, 8) <= u64::MAX / 250 ==> {
                &&& bytes.len() < 26 ==> decode(bytes) == Err::<ParametersModel, _>(
                    SessionParametersError::Truncated,
                )
                &&& bytes.len() >= 26 && bytes[25] == 0 ==> decode(bytes) == Err::<
                    ParametersModel,
                    _,
                >(SessionParametersError::EmptyAllowedInputTypes)
                &&& bytes.len() >= 26 && bytes[25] > 5 ==> decode(bytes) == Err::<
                    ParametersModel,
                    _,
                >(SessionParametersError::TooManyAllowedInputTypes(bytes[25] as usize))
            }
        },
{
    reveal(decode);
    if bytes.len() >= 4 {
        assert(bytes.take(4) =~= bytes.subrange(0, 4));
    }
    if bytes.len() >= 21 {
        let s = bytes.subrange(13, 21);
        lemma_u64_of_le_round_trip(s);
        lemma_low_first_u64(bytes, 13, u64_of_le(s));
    }
}

/// What is refused from the input types on, and why: the first byte that stands for no type, or the end
/// of the bytes, whichever comes first; then the first type that is named again; then a flag that is
/// neither 0 nor 1; then the end of the bytes; then a secret of zeros; then what follows the secret.
pub proof fn law_refused_tails(bytes: Seq<u8>)
    requires
        bytes.len() >= 26,
        bytes.len() <= usize::MAX,
        bytes.take(5) == seq![0x6du8, 0x70, 0x70, 0x30, 0],
        0 < low_first(bytes, 13, 8) <= u64::MAX / 250,
        1 <= bytes[25] <= 5,
    ensures
        ({
            let n = bytes[25] as int;
            let at = 26 + n;
            let secret_at = if at < bytes.len() && bytes[at] == 1 {
                at + 5
            } else {
                at + 1
            };
            &&& forall|i: int|
                0 <= i < n && 26 + i < bytes.len() && #[trigger] bytes[26 + i] > 4 && (forall|j: int|
                    0 <= j < i ==> #[trigger] bytes[26 + j] <= 4) ==> decode(bytes) == Err::<
                    ParametersModel,
                    _,
                >(SessionParametersError::UnknownInputType(bytes[26 + i]))
            &&& bytes.len() < at && (forall|j: int|
                26 <= j < bytes.len() ==> #[trigger] bytes[j] <= 4) ==> decode(bytes) == Err::<
                ParametersModel,
                _,
            >(SessionParametersError::Truncated)
            &&& bytes.len() >= at && (forall|j: int| 26 <= j < at ==> #[trigger] bytes[j] <= 4) ==> {
                &&& (exists|i: int, j: int|
                    26 <= i < j < at && #[trigger] bytes[i] == #[trigger] bytes[j]) ==> (decode(bytes)
                    matches Err(e) && e is DuplicateInputType)
                &&& (forall|i: int, j: int|
                    26 <= i < j < at ==> #[trigger] bytes[i] != #[trigger] bytes[j]) ==> {
                    &&& bytes.len() == at ==> decode(bytes) == Err::<ParametersModel, _>(
                        SessionParametersError::Truncated,
                    )
                    &&& bytes.len() > at && bytes[at] > 1 ==> decode(bytes) == Err::<
                        ParametersModel,
                        _,
                    >(SessionParametersError::InvalidSessionExpiryFlag(bytes[at]))
                    &&& bytes.len() > at && bytes[at] <= 1 ==> {
                        &&& bytes.len() < secret_at + 32 ==> decode(bytes) == Err::<
                            ParametersModel,
                            _,
                        >(SessionParametersError::Truncated)
                        &&& bytes.len() >= secret_at + 32 && (forall|j: int|
                            secret_at <= j < secret_at + 32 ==> #[trigger] bytes[j] == 0) ==> decode(
                            bytes,
                        ) == Err::<ParametersModel, _>(
                            SessionParametersError::InvalidSessionSecret,
                        )
                        &&& bytes.len() > secret_at + 32 && (exists|j: int|
                            secret_at <= j < secret_at + 32 && #[trigger] bytes[j] != 0) ==> (decode(
                            bytes,
                        ) matches Err(SessionParametersError::TrailingBytes(more)) && more
                            == bytes.len() - secret_at - 32)
                        &&& bytes.len() == secret_at + 32 && (exists|j: int|
                            secret_at <= j < secret_at + 32 && #[trigger] bytes[j] != 0) ==> decode(
                            bytes,
                        ) is Ok
                    }
                }
            }
        }),
{
    reveal(decode);
    let n = bytes[25] as nat;
    let at = 26 + n as int;
    let rest = bytes.skip(26);
    assert(bytes.subrange(0, 4) =~= magic()) by {
        let head = bytes.take(5);
        assert(head[0] == bytes[0] && head[1] == bytes[1] && head[2] == bytes[2] && head[3]
            == bytes[3]);
    }
    assert(bytes.take(5)[4] == bytes[4]);
    let s = bytes.subrange(13, 21);
    lemma_u64_of_le_round_trip(s);
    lemma_low_first_u64(bytes, 13, u64_of_le(s));
    assert forall|i: int|
        0 <= i < n && 26 + i < bytes.len() && #[trigger] bytes[26 + i] > 4 && (forall|j: int|
            0 <= j < i ==> #[trigger] bytes[26 + j] <= 4) implies decode(bytes) == Err::<
        ParametersModel,
        _,
    >(SessionParametersError::UnknownInputType(bytes[26 + i])) by {
        assert forall|j: int| 0 <= j < i implies #[trigger] rest[j] <= 4 by {
            assert(rest[j] == bytes[26 + j]);
        }
        lemma_known_types_are_read(rest, i as nat);
        assert(rest[i] == bytes[26 + i]);
        assert(decode_types(rest, (i + 1) as nat) == Err::<Seq<InputScriptType>, _>(
            SessionParametersError::UnknownInputType(bytes[26 + i]),
        ));
        lemma_decode_types_fails(rest, (i + 1) as nat, n);
    }
    if bytes.len() < at && (forall|j: int| 26 <= j < bytes.len() ==> #[trigger] bytes[j] <= 4) {
        assert forall|j: int| 0 <= j < rest.len() implies #[trigger] rest[j] <= 4 by {
            assert(rest[j] == bytes[26 + j]);
        }
        lemma_known_types_are_read(rest, rest.len());
        assert(decode_types(rest, rest.len() + 1) == Err::<Seq<InputScriptType>, _>(
            SessionParametersError::Truncated,
        ));
        lemma_decode_types_fails(rest, rest.len() + 1, n);
    }
    if bytes.len() >= at && (forall|j: int| 26 <= j < at ==> #[trigger] bytes[j] <= 4) {
        assert forall|j: int| 0 <= j < n implies #[trigger] rest[j] <= 4 by {
            assert(rest[j] == bytes[26 + j]);
        }
        lemma_known_types_are_read(rest, n);
        lemma_decode_types_reads(rest, n);
        let types = decode_types(rest, n)->Ok_0;
        assert forall|j: int| 0 <= j < n implies (#[trigger] types[j]).spec_discriminant()
            == bytes[26 + j] by {
            assert(type_bytes(types)[j] == rest.take(n as int)[j]);
        }
        lemma_no_duplicates(types, 0);
        if exists|i: int, j: int|
            26 <= i < j < at && #[trigger] bytes[i] == #[trigger] bytes[j] {
            let (i, j) = choose|i: int, j: int|
                26 <= i < j < at && #[trigger] bytes[i] == #[trigger] bytes[j];
            assert(types[i - 26].spec_discriminant() == types[j - 26].spec_discriminant());
            assert(types[i - 26] == types[j - 26]);
            assert(first_duplicate(types, 0) is Some);
        }
        if forall|i: int, j: int|
            26 <= i < j < at ==> #[trigger] bytes[i] != #[trigger] bytes[j] {
            assert forall|i: int, j: int| 0 <= i < j < types.len() implies types[i] != types[j] by {
                assert(bytes[26 + i] != bytes[26 + j]);
                assert(types[i].spec_discriminant() != types[j].spec_discriminant());
            }
            assert(first_duplicate(types, 0) is None);
            if bytes.len() > at && bytes[at] <= 1 {
                let secret_at = if bytes[at] == 1 {
                    at + 5
                } else {
                    at + 1
                };
                if bytes.len() >= secret_at + 32 {
                    let secret = bytes.subrange(secret_at, secret_at + 32);
                    if forall|j: int|
                        secret_at <= j < secret_at + 32 ==> #[trigger] bytes[j] == 0 {
                        assert(all_zero(secret));
                    }
                    if exists|j: int|
                        secret_at <= j < secret_at + 32 && #[trigger] bytes[j] != 0 {
                        let j = choose|j: int|
                            secret_at <= j < secret_at + 32 && #[trigger] bytes[j] != 0;
                        assert(secret[j - secret_at] != 0);
                        assert(!all_zero(secret));
                    }
                }
            }
        }
    }
}

/// Bytes that stand for types are read.
proof fn lemma_known_types_are_read(bytes: Seq<u8>, count: nat)
    requires
        count <= bytes.len(),
        forall|j: int| 0 <= j < count ==> #[trigger] bytes[j] <= 4,
    ensures
        decode_types(bytes, count) is Ok,
    decreases count,
{
    if count > 0 {
        lemma_known_types_are_read(bytes, (count - 1) as nat);
    }
}

/// In a message-A body, what follows an encoding is refused where it is not all zero, and counted.
pub proof fn law_other_padding_is_refused(m: ParametersModel, tail: Seq<u8>)
    requires
        m.acceptable(),
        tail.len() <= usize::MAX,
        exists|i: int| 0 <= i < tail.len() && #[trigger] tail[i] != 0,
    ensures
        decode_padded(m.wire() + tail) matches Err(SessionParametersError::TrailingBytes(more))
            && more == tail.len(),
{
    lemma_decode_of_wire_and_tail(m, tail);
    let b = m.wire() + tail;
    assert(b.skip(m.wire().len() as int) =~= tail);
}

/// A body that is refused for anything but what follows an encoding is refused for the same in a
/// message A.
pub proof fn law_other_faults_stay(bytes: Seq<u8>)
    requires
        decode(bytes) matches Err(e) && !(e is TrailingBytes),
    ensures
        decode_padded(bytes) == decode(bytes),
{
}

/// Drawn bytes are the secret, unless they are all zero: then the secret is the number one.
pub proof fn law_drawn_secret_is_kept(drawn: Seq<u8>)
    requires
        drawn.len() == 32,
    ensures
        secret_of(drawn).len() == 32,
        exists|i: int| 0 <= i < 32 && #[trigger] secret_of(drawn)[i] != 0,
        (exists|i: int| 0 <= i < 32 && #[trigger] drawn[i] != 0) ==> secret_of(drawn) == drawn,
        (forall|i: int| 0 <= i < 32 ==> #[trigger] drawn[i] == 0) ==> secret_of(drawn)[31] == 1
            && forall|i: int| 0 <= i < 31 ==> #[trigger] secret_of(drawn)[i] == 0,
{
    if all_zero(drawn) {
        assert(secret_of(drawn)[31] == 1);
    } else {
        let i = choose|i: int| 0 <= i < drawn.len() && drawn[i] != 0;
        assert(secret_of(drawn)[i] != 0);
    }
}

/// Nothing of session parameters is left out of what is said of them, and nothing is changed: parameters
/// of which the same is said are the same, field by field.
pub proof fn law_parameters_are_what_is_said(p: SessionParameters)
    ensures
        p@.tx_version == p.tx_version,
        p@.lock_time == p.lock_time,
        p@.min_feerate == p.min_feerate,
        p@.input_sequence == p.input_sequence,
        p@.allowed_input_types.len() == p.allowed_input_types@.len(),
        forall|i: int|
            0 <= i < p.allowed_input_types@.len() ==> #[trigger] p@.allowed_input_types[i]
                == p.allowed_input_types@[i],
        p@.session_expiry == p.session_expiry,
        p@.session_secret == p.session_secret@,
{
}

/// The type that is reported as named twice is the first of those that are named again.
pub proof fn law_first_repeated_type_is_reported(types: Seq<InputScriptType>, i: int, j: int)
    requires
        0 <= i < j < types.len(),
        types[i] == types[j],
        forall|k: int, l: int| 0 <= k < i && k < l < types.len() ==> types[k] != types[l],
    ensures
        first_duplicate(types, 0) == Some(types[i]),
{
    lemma_first_duplicate_from(types, 0, i);
    assert(occurs_again(types, i));
}

/// Types that are not named again do not matter.
proof fn lemma_first_duplicate_from(types: Seq<InputScriptType>, from: int, i: int)
    requires
        0 <= from <= i < types.len(),
        forall|k: int, l: int| from <= k < i && k < l < types.len() ==> types[k] != types[l],
    ensures
        first_duplicate(types, from) == first_duplicate(types, i),
    decreases i - from,
{
    if from < i {
        assert(!occurs_again(types, from));
        lemma_first_duplicate_from(types, from + 1, i);
    }
}

/// The message of an error that has found something amiss ends with what it found.
pub proof fn law_message_names_what_was_found(e: SessionParametersError)
    ensures
        match e {
            SessionParametersError::UnsupportedVersion(v) => ends_with(
                e.spec_message(),
                decimal(v as nat),
            ),
            SessionParametersError::TrailingBytes(n) => ends_with(
                e.spec_message(),
                decimal(n as nat) + ")"@,
            ),
            SessionParametersError::TooManyAllowedInputTypes(n) => ends_with(
                e.spec_message(),
                decimal(n as nat) + ")"@,
            ),
            SessionParametersError::UnknownInputType(b) => ends_with(
                e.spec_message(),
                decimal(b as nat),
            ),
            SessionParametersError::DuplicateInputType(t) => ends_with(
                e.spec_message(),
                t.spec_name(),
            ),
            SessionParametersError::InvalidSessionExpiryFlag(b) => ends_with(
                e.spec_message(),
                decimal(b as nat),
            ),
            _ => true,
        },
{
    match e {
        SessionParametersError::UnsupportedVersion(v) => lemma_ends_with(
            "unsupported session parameters version "@,
            decimal(v as nat),
        ),
        SessionParametersError::TrailingBytes(n) => {
            lemma_ends_with("trailing bytes ("@, decimal(n as nat) + ")"@);
            assert(e.spec_message() =~= "trailing bytes ("@ + (decimal(n as nat) + ")"@));
        },
        SessionParametersError::TooManyAllowedInputTypes(n) => {
            lemma_ends_with("too many allowed input types ("@, decimal(n as nat) + ")"@);
            assert(e.spec_message() =~= "too many allowed input types ("@ + (decimal(n as nat) + ")"@));
        },
        SessionParametersError::UnknownInputType(b) => lemma_ends_with(
            "unknown input script type "@,
            decimal(b as nat),
        ),
        SessionParametersError::DuplicateInputType(t) => lemma_ends_with(
            "duplicate allowed input type "@,
            t.spec_name(),
        ),
        SessionParametersError::InvalidSessionExpiryFlag(b) => lemma_ends_with(
            "invalid session expiry flag "@,
            decimal(b as nat),
        ),
        _ => {},
    }
}

/// The name of an input type tells it from every other.
pub proof fn law_input_type_names_differ(a: InputScriptType, b: InputScriptType)
    ensures
        a.spec_name() == b.spec_name() <==> a == b,
{
    reveal_strlit("P2pkh");
    reveal_strlit("P2sh");
    reveal_strlit("P2wpkh");
    reveal_strlit("P2wsh");
    reveal_strlit("P2tr");
    if a != b {
        assert(a.spec_name().len() != b.spec_name().len() || a.spec_name()[2] != b.spec_name()[2]
            || a.spec_name()[3] != b.spec_name()[3]);
    }
}

} // verus!
