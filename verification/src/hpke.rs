//! HPKE keys, and the sealed messages that mailbox frames hold.
//!
//! A message A is one frame: the ElligatorSwift encoding of the ephemeral key (64 bytes), then
//! the ciphertext of the sender's reply key (65 bytes) and the zero-padded body.
use bitcoin_hpke::{Deserializable, Kem, Serializable};

use vstd::prelude::*;
use vstd::slice::*;

use crate::bytes::{append_bytes, bytes_equal, pad_zeros, to_array, zeros};
use crate::directory::{sha256_digest, short_id_of, ShortId, PADDED_MESSAGE_BYTES};
use crate::text::{concat, decimal, decimal_string};

verus! {

/// Length of the body of a message A, with its padding.
pub const PADDED_PLAINTEXT_A_LENGTH: usize = 7023;

/// The HPKE `info` of a message A.
pub open spec fn info_a() -> Seq<u8> {
    seq![80u8, 106, 86, 50, 77, 115, 103, 65]
}

/// The uncompressed form of the key that some bytes hold, where they hold one.
pub uninterp spec fn hpke_key_parsed(bytes: Seq<u8>) -> Option<Seq<u8>>;

/// The uncompressed public key of a secret key.
pub uninterp spec fn hpke_public_of(secret: Seq<u8>) -> Seq<u8>;

/// The secret key derived from some keying material.
pub uninterp spec fn hpke_derived_secret(ikm: Seq<u8>) -> Seq<u8>;

/// The plaintext that the holder of a secret key opens a ciphertext to.
pub uninterp spec fn hpke_opened(
    secret: Seq<u8>,
    encapped_key: Seq<u8>,
    info: Seq<u8>,
    ciphertext: Seq<u8>,
) -> Option<Seq<u8>>;

/// The uncompressed public key that an ElligatorSwift encoding stands for.
pub uninterp spec fn ellswift_decoded(encoding: Seq<u8>) -> Seq<u8>;

/// Whether `key` is the uncompressed form of a public key.
pub open spec fn is_public_key(key: Seq<u8>) -> bool {
    key.len() == 65 && hpke_key_parsed(key) == Some(key)
}

/// The compressed form of an uncompressed public key.
pub open spec fn compressed(key: Seq<u8>) -> Seq<u8> {
    seq![if key[64] % 2 == 0 { 2u8 } else { 3u8 }] + key.subrange(1, 33)
}

/// Errors of HPKE operations.
#[derive(Debug, Clone, Copy, PartialEq, Eq)]
pub enum HpkeError {
    /// Some bytes are no public key.
    InvalidPublicKey,
    /// Sealing or opening failed.
    Hpke,
    /// The body does not fit in a frame.
    PayloadTooLarge { actual: usize, max: usize },
    /// The message is too short to be one.
    PayloadTooShort,
}

impl HpkeError {
    /// The message shown for this error.
    pub open spec fn spec_message(self) -> Seq<char> {
        match self {
            HpkeError::InvalidPublicKey => "invalid public key"@,
            HpkeError::Hpke => "HPKE error"@,
            HpkeError::PayloadTooLarge { actual, max } => "plaintext too large, max size: "@
                + decimal(max as nat) + ", actual size: "@ + decimal(actual as nat),
            HpkeError::PayloadTooShort => "payload too small"@,
        }
    }

    /// The message shown for this error.
    pub fn message(&self) -> (r: String)
        ensures
            r@ == self.spec_message(),
    {
        match self {
            Self::InvalidPublicKey => "invalid public key".to_owned(),
            Self::Hpke => "HPKE error".to_owned(),
            Self::PayloadTooLarge { actual, max } => concat(
                &concat(
                    &concat("plaintext too large, max size: ", &decimal_string(*max as u64)),
                    ", actual size: ",
                ),
                &decimal_string(*actual as u64),
            ),
            Self::PayloadTooShort => "payload too small".to_owned(),
        }
    }
}

/// An HPKE public key, uncompressed.
#[derive(Debug, Clone, Copy, PartialEq, Eq)]
pub struct HpkePublicKey(pub(crate) [u8; 65]);

/// An HPKE secret key.
#[derive(Debug, Clone, Copy, PartialEq, Eq)]
pub struct HpkeSecretKey(pub [u8; 32]);

/// An HPKE secret key with its public key.
#[derive(Debug, Clone, Copy, PartialEq, Eq)]
pub struct HpkeKeyPair {
    pub secret: HpkeSecretKey,
    pub public: HpkePublicKey,
}

impl View for HpkePublicKey {
    type V = Seq<u8>;

    closed spec fn view(&self) -> Seq<u8> {
        self.0@
    }
}

impl View for HpkeSecretKey {
    type V = Seq<u8>;

    open spec fn view(&self) -> Seq<u8> {
        self.0@
    }
}

/// `Kem::gen_keypair` of `bitcoin_hpke` with its `OsRng`: a secret key and its public key. Which
/// key it is depends on chance.
#[verifier::external_body]
fn kem_gen_keypair() -> (r: ([u8; 32], [u8; 65]))
    ensures
        r.1@ == hpke_public_of(r.0@),
        is_public_key(r.1@),
{
    let (secret, public) = bitcoin_hpke::kem::SecpK256HkdfSha256::gen_keypair(
        &mut bitcoin_hpke::rand_core::OsRng,
    );
    let public = public.to_bytes().as_slice().try_into().expect("65 bytes");
    (secret.to_bytes().into(), public)
}

/// `Kem::derive_keypair` of `bitcoin_hpke`: the secret key, named `hpke_derived_secret`, and its
/// public key.
#[verifier::external_body]
fn kem_derive_keypair(ikm: &[u8]) -> (r: ([u8; 32], [u8; 65]))
    ensures
        r.0@ == hpke_derived_secret(ikm@),
        r.1@ == hpke_public_of(r.0@),
        is_public_key(r.1@),
{
    let (secret, public) = bitcoin_hpke::kem::SecpK256HkdfSha256::derive_keypair(ikm);
    let public = public.to_bytes().as_slice().try_into().expect("65 bytes");
    (secret.to_bytes().into(), public)
}

/// `Deserializable::from_bytes` of `bitcoin_hpke`'s secp256k1 public key, written again
/// uncompressed: named `hpke_key_parsed`. The uncompressed form is read as itself.
#[verifier::external_body]
fn kem_parse_public_key(bytes: &[u8]) -> (r: Option<[u8; 65]>)
    ensures
        match hpke_key_parsed(bytes@) {
            Some(key) => r is Some && r->0@ == key && is_public_key(key),
            None => r is None,
        },
{
    let key = <bitcoin_hpke::kem::SecpK256HkdfSha256 as Kem>::PublicKey::from_bytes(bytes).ok()?;
    Some(key.to_bytes().as_slice().try_into().expect("65 bytes"))
}

/// `secp256k1::PublicKey::from_slice` on 33 bytes, written uncompressed: the public key with that
/// compressed form, and none where no public key has it.
#[verifier::external_body]
fn secp_decompress(bytes: &[u8; 33]) -> (r: Option<[u8; 65]>)
    ensures
        match r {
            Some(key) => is_public_key(key@) && compressed(key@) == bytes@ && forall|other: Seq<u8>|
                is_public_key(other) && #[trigger] compressed(other) == bytes@ ==> other == key@,
            None => forall|key: Seq<u8>| is_public_key(key) ==> #[trigger] compressed(key) != bytes@,
        },
{
    let key = bitcoin::secp256k1::PublicKey::from_slice(bytes).ok()?;
    Some(key.serialize_uncompressed())
}

/// `secp256k1::PublicKey::serialize`: the compressed form of a public key. No other public key has
/// the same.
#[verifier::external_body]
fn secp_compress(key: &[u8; 65]) -> (r: [u8; 33])
    requires
        is_public_key(key@),
    ensures
        r@ == compressed(key@),
        forall|other: Seq<u8>|
            is_public_key(other) && #[trigger] compressed(other) == r@ ==> other == key@,
{
    bitcoin::secp256k1::PublicKey::from_slice(key).expect("a public key").serialize()
}

/// `secp256k1::ellswift::ElligatorSwift::from_pubkey`: an encoding that stands for the key.
#[verifier::external_body]
fn ellswift_encode(key: &[u8; 65]) -> (r: [u8; 64])
    requires
        is_public_key(key@),
    ensures
        ellswift_decoded(r@) == key@,
{
    let key = bitcoin::secp256k1::PublicKey::from_slice(key).expect("a public key");
    bitcoin::secp256k1::ellswift::ElligatorSwift::from_pubkey(key).to_array()
}

/// `secp256k1::PublicKey::from_ellswift`: the public key that an encoding stands for, named
/// `ellswift_decoded`. Every 64 bytes stand for one.
#[verifier::external_body]
fn ellswift_decode(encoding: [u8; 64]) -> (r: [u8; 65])
    ensures
        r@ == ellswift_decoded(encoding@),
        is_public_key(r@),
{
    let encoding = bitcoin::secp256k1::ellswift::ElligatorSwift::from_array(encoding);
    bitcoin::secp256k1::PublicKey::from_ellswift(encoding).serialize_uncompressed()
}

/// `single_shot_seal` of `bitcoin_hpke` in base mode, with no associated data: an ephemeral public
/// key and the ciphertext, 16 bytes longer than the plaintext. The holder of the secret key of
/// `receiver` opens it to the plaintext. Which ephemeral key is drawn depends on chance.
#[verifier::external_body]
fn kem_seal(receiver: &[u8; 65], info: &[u8], plaintext: &[u8]) -> (r: ([u8; 65], Vec<u8>))
    requires
        is_public_key(receiver@),
        plaintext@.len() <= 65536,
    ensures
        is_public_key(r.0@),
        r.1@.len() == plaintext@.len() + 16,
        forall|secret: Seq<u8>| #[trigger]
            hpke_public_of(secret) == receiver@ ==> hpke_opened(secret, r.0@, info@, r.1@) == Some(
                plaintext@,
            ),
{
    let key = <bitcoin_hpke::kem::SecpK256HkdfSha256 as Kem>::PublicKey::from_bytes(receiver)
        .expect("a public key");
    let (ephemeral, ciphertext) = bitcoin_hpke::single_shot_seal::<
        bitcoin_hpke::aead::ChaCha20Poly1305,
        bitcoin_hpke::kdf::HkdfSha256,
        bitcoin_hpke::kem::SecpK256HkdfSha256,
        _,
    >(&bitcoin_hpke::OpModeS::Base, &key, info, plaintext, &[], &mut bitcoin_hpke::rand_core::OsRng)
        .expect("a short plaintext");
    (ephemeral.to_bytes().as_slice().try_into().expect("65 bytes"), ciphertext)
}

/// `single_shot_open` of `bitcoin_hpke` in base mode, with no associated data: the plaintext,
/// named `hpke_opened`, 16 bytes shorter than the ciphertext; none where it does not open.
#[verifier::external_body]
fn kem_open(secret: &[u8; 32], encapped_key: &[u8; 65], info: &[u8], ciphertext: &[u8]) -> (r: Option<
    Vec<u8>,
>)
    ensures
        match hpke_opened(secret@, encapped_key@, info@, ciphertext@) {
            Some(plaintext) => r is Some && r->0@ == plaintext && plaintext.len() + 16
                == ciphertext@.len(),
            None => r is None,
        },
{
    let sk = <bitcoin_hpke::kem::SecpK256HkdfSha256 as Kem>::PrivateKey::from_bytes(secret).ok()?;
    let enc = <bitcoin_hpke::kem::SecpK256HkdfSha256 as Kem>::EncappedKey::from_bytes(encapped_key).ok()?;
    bitcoin_hpke::single_shot_open::<
        bitcoin_hpke::aead::ChaCha20Poly1305,
        bitcoin_hpke::kdf::HkdfSha256,
        bitcoin_hpke::kem::SecpK256HkdfSha256,
    >(&bitcoin_hpke::OpModeR::Base, &sk, &enc, info, ciphertext, &[]).ok()
}

impl HpkePublicKey {
    #[verifier::type_invariant]
    pub(crate) closed spec fn holds_a_key(self) -> bool {
        is_public_key(self.0@)
    }

    /// Whether this is a public key. Every key that exists at run time is one.
    pub open spec fn valid(self) -> bool {
        is_public_key(self@)
    }

    /// The mailbox id that belongs to this key.
    pub open spec fn spec_short_id(self) -> Seq<u8> {
        short_id_of(compressed(self@))
    }

    /// Every key at run time is a public key.
    pub fn ensure_valid(&self)
        ensures
            self.valid(),
    {
        proof {
            use_type_invariant(self);
        }
    }

    /// Reads an uncompressed public key.
    pub fn from_bytes(bytes: &[u8]) -> (r: Result<HpkePublicKey, HpkeError>)
        ensures
            match hpke_key_parsed(bytes@) {
                Some(key) => r is Ok && r->Ok_0@ == key && r->Ok_0.valid(),
                None => r == Err::<HpkePublicKey, _>(HpkeError::InvalidPublicKey),
            },
    {
        match kem_parse_public_key(bytes) {
            Some(key) => Ok(HpkePublicKey(key)),
            None => Err(HpkeError::InvalidPublicKey),
        }
    }

    /// The key, uncompressed.
    pub fn to_bytes(&self) -> (r: [u8; 65])
        ensures
            r@ == self@,
            self.valid(),
    {
        proof {
            use_type_invariant(self);
        }
        self.0
    }

    /// The key in its compressed form. No other key has the same.
    pub fn to_compressed_bytes(&self) -> (r: [u8; 33])
        ensures
            r@ == compressed(self@),
            self.valid(),
            forall|other: Seq<u8>|
                is_public_key(other) && #[trigger] compressed(other) == r@ ==> other == self@,
    {
        proof {
            use_type_invariant(self);
        }
        secp_compress(&self.0)
    }

    /// Reads a compressed public key.
    pub fn from_compressed_bytes(bytes: &[u8; 33]) -> (r: Result<HpkePublicKey, HpkeError>)
        ensures
            match r {
                Ok(key) => key.valid() && compressed(key@) == bytes@ && forall|other: Seq<u8>|
                    is_public_key(other) && #[trigger] compressed(other) == bytes@ ==> other
                        == key@,
                Err(e) => e == HpkeError::InvalidPublicKey && forall|key: Seq<u8>|
                    is_public_key(key) ==> #[trigger] compressed(key) != bytes@,
            },
    {
        match secp_decompress(bytes) {
            Some(key) => Ok(HpkePublicKey(key)),
            None => Err(HpkeError::InvalidPublicKey),
        }
    }

    /// The mailbox id that belongs to this key: from the digest of its compressed form.
    pub fn short_id(&self) -> (r: ShortId)
        ensures
            r@ == self.spec_short_id(),
    {
        ShortId::of_bytes(&self.to_compressed_bytes())
    }

    /// Whether two keys are the same.
    pub fn same_as(&self, other: &HpkePublicKey) -> (r: bool)
        ensures
            r == (*self == *other),
    {
        let r = bytes_equal(self.0.as_slice(), other.0.as_slice());
        assert(r ==> self.0 =~= other.0);
        r
    }
}

/// Keys with the same bytes are the same.
pub proof fn lemma_same_key(a: HpkePublicKey, b: HpkePublicKey)
    requires
        a@ == b@,
    ensures
        a == b,
{
    assert(a.0 =~= b.0);
}

impl HpkeKeyPair {
    /// Whether the two keys belong together.
    pub open spec fn matched(self) -> bool {
        self.public.valid() && self.public@ == hpke_public_of(self.secret@)
    }

    /// Draws a new key pair.
    pub fn gen_keypair() -> (r: HpkeKeyPair)
        ensures
            r.matched(),
    {
        let (secret, public) = kem_gen_keypair();
        HpkeKeyPair { secret: HpkeSecretKey(secret), public: HpkePublicKey(public) }
    }

    /// Derives a key pair from some keying material.
    pub fn derive_keypair(ikm: &[u8]) -> (r: HpkeKeyPair)
        ensures
            r.secret@ == hpke_derived_secret(ikm@),
            r.matched(),
    {
        let (secret, public) = kem_derive_keypair(ikm);
        HpkeKeyPair { secret: HpkeSecretKey(secret), public: HpkePublicKey(public) }
    }

    pub fn public_key(&self) -> (r: &HpkePublicKey)
        ensures
            *r == self.public,
    {
        &self.public
    }

    pub fn secret_key(&self) -> (r: &HpkeSecretKey)
        ensures
            *r == self.secret,
    {
        &self.secret
    }
}

/// What the holder of `secret` reads in the plaintext of a message A: the body and the reply key.
pub open spec fn read_plaintext_a(plaintext: Option<Seq<u8>>) -> Result<
    (Seq<u8>, Seq<u8>),
    HpkeError,
> {
    match plaintext {
        None => Err(HpkeError::Hpke),
        Some(p) => if p.len() < 65 {
            Err(HpkeError::PayloadTooShort)
        } else {
            match hpke_key_parsed(p.take(65)) {
                None => Err(HpkeError::Hpke),
                Some(reply_key) => Ok((p.skip(65), reply_key)),
            }
        },
    }
}

/// What the holder of `secret` reads in a message A: the body, with its padding, and the sender's
/// reply key.
pub open spec fn message_a_opened(secret: Seq<u8>, message: Seq<u8>) -> Result<
    (Seq<u8>, Seq<u8>),
    HpkeError,
> {
    if message.len() < 64 {
        Err(HpkeError::PayloadTooShort)
    } else {
        read_plaintext_a(
            hpke_opened(secret, ellswift_decoded(message.take(64)), info_a(), message.skip(64)),
        )
    }
}

/// Whether `message` is one frame in which the holder of the secret key of `receiver` reads
/// `body`, zero padded, from the holder of `reply_key`.
pub open spec fn carries(
    message: Seq<u8>,
    body: Seq<u8>,
    reply_key: HpkePublicKey,
    receiver: HpkePublicKey,
) -> bool {
    &&& message.len() == PADDED_MESSAGE_BYTES
    &&& body.len() <= PADDED_PLAINTEXT_A_LENGTH
    &&& forall|secret: Seq<u8>| #[trigger]
        hpke_public_of(secret) == receiver@ ==> message_a_opened(secret, message) == Ok::<
            _,
            HpkeError,
        >((body + zeros((PADDED_PLAINTEXT_A_LENGTH - body.len()) as nat), reply_key@))
}

/// Seals `body` for `receiver_key` into one frame, together with the sender's reply key.
pub fn encrypt_message_a(
    body: Vec<u8>,
    reply_key: &HpkePublicKey,
    receiver_key: &HpkePublicKey,
) -> (r: Result<Vec<u8>, HpkeError>)
    ensures
        match r {
            Ok(message) => carries(message@, body@, *reply_key, *receiver_key),
            Err(e) => body@.len() > PADDED_PLAINTEXT_A_LENGTH && e == (HpkeError::PayloadTooLarge {
                actual: body@.len() as usize,
                max: PADDED_PLAINTEXT_A_LENGTH,
            }),
        },
{
    if body.len() > PADDED_PLAINTEXT_A_LENGTH {
        return Err(
            HpkeError::PayloadTooLarge { actual: body.len(), max: PADDED_PLAINTEXT_A_LENGTH },
        );
    }
    proof {
        use_type_invariant(reply_key);
        use_type_invariant(receiver_key);
    }
    let mut body = body;
    pad_zeros(&mut body, PADDED_PLAINTEXT_A_LENGTH);
    let mut plaintext: Vec<u8> = Vec::new();
    append_bytes(&mut plaintext, reply_key.0.as_slice());
    append_bytes(&mut plaintext, &body);
    let info: [u8; 8] = [80, 106, 86, 50, 77, 115, 103, 65];
    assert(info@ =~= info_a());
    let (ephemeral, ciphertext) = kem_seal(&receiver_key.0, &info, &plaintext);
    let encoding = ellswift_encode(&ephemeral);
    let mut message: Vec<u8> = Vec::new();
    append_bytes(&mut message, encoding.as_slice());
    append_bytes(&mut message, &ciphertext);
    proof {
        assert(message@.take(64) =~= encoding@);
        assert(message@.skip(64) =~= ciphertext@);
        assert(plaintext@.take(65) =~= reply_key@);
        assert(plaintext@.skip(65) =~= body@);
    }
    Ok(message)
}

/// Opens a message A: the body, with its padding, and the sender's reply key.
pub fn decrypt_message_a(message: &[u8], receiver_secret: &HpkeSecretKey) -> (r: Result<
    (Vec<u8>, HpkePublicKey),
    HpkeError,
>)
    ensures
        match message_a_opened(receiver_secret@, message@) {
            Ok((body, reply_key)) => r matches Ok(read) && read.0@ == body && read.1@ == reply_key
                && read.1.valid(),
            Err(e) => r == Err::<(Vec<u8>, HpkePublicKey), _>(e),
        },
{
    if message.len() < 64 {
        return Err(HpkeError::PayloadTooShort);
    }
    let (head, ciphertext) = message.split_at(64);
    assert(head@ =~= message@.take(64));
    assert(ciphertext@ =~= message@.skip(64));
    let ephemeral = ellswift_decode(to_array(head));
    let info: [u8; 8] = [80, 106, 86, 50, 77, 115, 103, 65];
    assert(info@ =~= info_a());
    let opened = kem_open(&receiver_secret.0, &ephemeral, &info, ciphertext);
    open_plaintext_a(opened)
}

/// Splits what a message A opened to, if it opened, into the body and the sender's reply key.
pub fn open_plaintext_a(opened: Option<Vec<u8>>) -> (r: Result<(Vec<u8>, HpkePublicKey), HpkeError>)
    ensures
        match read_plaintext_a(
            match opened {
                Some(plaintext) => Some(plaintext@),
                None => None,
            },
        ) {
            Ok((body, reply_key)) => r matches Ok(read) && read.0@ == body && read.1@ == reply_key
                && read.1.valid(),
            Err(e) => r == Err::<(Vec<u8>, HpkePublicKey), _>(e),
        },
{
    let plaintext = match opened {
        Some(plaintext) => plaintext,
        None => return Err(HpkeError::Hpke),
    };
    if plaintext.len() < 65 {
        return Err(HpkeError::PayloadTooShort);
    }
    let key_bytes = slice_subrange(&plaintext, 0, 65);
    assert(key_bytes@ =~= plaintext@.take(65));
    let reply_key = match HpkePublicKey::from_bytes(key_bytes) {
        Ok(key) => key,
        Err(_) => return Err(HpkeError::Hpke),
    };
    let body = slice_subrange(&plaintext, 65, plaintext.len());
    assert(body@ =~= plaintext@.skip(65));
    Ok((slice_to_vec(body), reply_key))
}

/// How a message A is laid out: an encoded ephemeral key of 64 bytes, then a ciphertext under the info
/// `PjV2MsgA`, which opens to the sender's reply key of 65 bytes and the body.
pub proof fn law_message_a_is_laid_out(secret: Seq<u8>, message: Seq<u8>)
    ensures
        message.len() < 64 ==> message_a_opened(secret, message) == Err::<(Seq<u8>, Seq<u8>), _>(
            HpkeError::PayloadTooShort,
        ),
        message.len() >= 64 ==> match hpke_opened(
            secret,
            ellswift_decoded(message.subrange(0, 64)),
            seq![80u8, 106, 86, 50, 77, 115, 103, 65],
            message.subrange(64, message.len() as int),
        ) {
            None => message_a_opened(secret, message) == Err::<(Seq<u8>, Seq<u8>), _>(
                HpkeError::Hpke,
            ),
            Some(opened) => if opened.len() < 65 {
                message_a_opened(secret, message) == Err::<(Seq<u8>, Seq<u8>), _>(
                    HpkeError::PayloadTooShort,
                )
            } else {
                match hpke_key_parsed(opened.subrange(0, 65)) {
                    None => message_a_opened(secret, message) == Err::<(Seq<u8>, Seq<u8>), _>(
                        HpkeError::Hpke,
                    ),
                    Some(reply_key) => message_a_opened(secret, message) matches Ok((body, key))
                        && key == reply_key && opened == opened.subrange(0, 65) + body,
                }
            },
        },
{
    if message.len() >= 64 {
        assert(message.take(64) =~= message.subrange(0, 64));
        assert(message.skip(64) =~= message.subrange(64, message.len() as int));
        if let Some(opened) = hpke_opened(
            secret,
            ellswift_decoded(message.take(64)),
            info_a(),
            message.skip(64),
        ) {
            if opened.len() >= 65 {
                assert(opened.take(65) =~= opened.subrange(0, 65));
                assert(opened =~= opened.subrange(0, 65) + opened.skip(65));
            }
        }
    }
}

/// What was sealed is what the receiver opens: the body, up to the zero bytes that fill the frame, and
/// the sender's reply key. A frame always has the same length.
pub proof fn law_sealed_body_is_opened(
    message: Seq<u8>,
    body: Seq<u8>,
    reply_key: HpkePublicKey,
    receiver: HpkePublicKey,
    secret: Seq<u8>,
)
    requires
        carries(message, body, reply_key, receiver),
        hpke_public_of(secret) == receiver@,
    ensures
        message.len() == 7168,
        body.len() <= 7168 - 64 - 16 - 65,
        message_a_opened(secret, message) matches Ok((opened, key)) && {
            &&& key == reply_key@
            &&& opened.len() == 7168 - 64 - 16 - 65
            &&& opened.take(body.len() as int) == body
            &&& forall|i: int| body.len() <= i < opened.len() ==> #[trigger] opened[i] == 0
        },
{
    let opened = body + zeros((PADDED_PLAINTEXT_A_LENGTH - body.len()) as nat);
    assert(message_a_opened(secret, message) == Ok::<_, HpkeError>((opened, reply_key@)));
    assert(opened.take(body.len() as int) =~= body);
}

/// The mailbox of a key is named by the first eight bytes of the digest of its compressed form: the
/// parity of the last byte of `y`, then the 32 bytes of `x`.
pub proof fn law_mailbox_of_a_key(key: HpkePublicKey)
    ensures
        key.spec_short_id() == sha256_digest(
            seq![(2 + key@[64] % 2) as u8] + key@.subrange(1, 33),
        ).take(8),
{
    assert(compressed(key@) =~= seq![(2 + key@[64] % 2) as u8] + key@.subrange(1, 33));
}

/// A secret key is known by its bytes; keys that belong together are a secret key and its public key.
pub proof fn law_keys_are_what_is_said(pair: HpkeKeyPair)
    ensures
        pair.secret@ == pair.secret.0@,
        pair.matched() <==> pair.public.valid() && pair.public@ == hpke_public_of(pair.secret@),
{
}

} // verus!
