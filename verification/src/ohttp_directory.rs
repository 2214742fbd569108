//! A directory's side of an OHTTP exchange, to try out clients without a network.
use bitcoin_ohttp::{ClientResponse, Server, ServerResponse};

use vstd::prelude::*;
use vstd::slice::*;

use crate::bytes::{pad_zeros, zeros};
use crate::directory::ENCAPSULATED_MESSAGE_BYTES;
use crate::hpke::{is_public_key, HpkePublicKey};
use crate::ohttp::{
    bhttp_read, config_bytes, directory_answer, ohttp_exchange, ohttp_request_opened,
    ohttp_response_opened, DirectoryResponseError, OhttpKeys,
};

verus! {

/// OHTTP relay URL of tests (not contacted; only parsed into requests).
pub const OHTTP_RELAY: &'static str = "http://127.0.0.1:8080";

/// Fixed-size OHTTP request/response body for the Payjoin Directory.
pub type EncapsulatedDirectoryMessage = [u8; 8192];

/// Size of a BHTTP response with its padding: an encapsulated message without the nonce and tag.
pub const BHTTP_RES_BYTES: usize = 8144;

/// The key id of test directories.
pub const KEY_ID: u8 = 1;

/// The outside type `bitcoin_ohttp::Server`: a key configuration with its secret key.
#[verifier::external_type_specification]
#[verifier::external_body]
pub struct ExServer(bitcoin_ohttp::Server);

/// The outside type `bitcoin_ohttp::ServerResponse`: what a server keeps of a request to answer it.
#[verifier::external_type_specification]
#[verifier::external_body]
pub struct ExServerResponse(bitcoin_ohttp::ServerResponse);

/// The encoded key configuration of a server.
pub uninterp spec fn ohttp_server_config(server: Server) -> Seq<u8>;

/// The key configuration and the encapsulated request that an answer belongs to.
pub uninterp spec fn ohttp_served(ctx: ServerResponse) -> (Seq<u8>, Seq<u8>);

/// The binary HTTP encoding of a response without header fields.
pub uninterp spec fn bhttp_response_bytes(status: u16, content: Seq<u8>) -> Seq<u8>;

/// Whether the key configuration of a server holds a public key under the given key id.
pub open spec fn is_server_with(server: Server, key_id: u8) -> bool {
    exists|key: Seq<u8>|
        is_public_key(key) && ohttp_server_config(server) == #[trigger] config_bytes(key_id, key)
}

/// `bitcoin_ohttp::KeyConfig::new` and `Server::new` with DHKEM(secp256k1, HKDF-SHA256) and the one
/// suite HKDF-SHA256 with ChaCha20Poly1305: a server with a new key under the given key id. The
/// key depends on chance.
#[verifier::external_body]
fn ohttp_server_new(key_id: u8) -> (r: Server)
    ensures
        is_server_with(r, key_id),
{
    let suite = bitcoin_ohttp::SymmetricSuite::new(
        bitcoin_ohttp::hpke::Kdf::HkdfSha256,
        bitcoin_ohttp::hpke::Aead::ChaCha20Poly1305,
    );
    let kem = bitcoin_ohttp::hpke::Kem::K256Sha256;
    let config = bitcoin_ohttp::KeyConfig::new(key_id, kem, vec![suite]).expect("a supported suite");
    Server::new(config).expect("a secret key")
}

/// `bitcoin_ohttp::Server::config` and `KeyConfig::encode`: the encoded key configuration, named
/// `ohttp_server_config`.
#[verifier::external_body]
fn ohttp_server_encode(server: &Server) -> (r: Vec<u8>)
    ensures
        r@ == ohttp_server_config(*server),
{
    server.config().encode().expect("writing to memory")
}

/// `bitcoin_ohttp::Server::decapsulate`: what the server opens the request to, named
/// `ohttp_request_opened`, and what it answers with; none where the request does not open.
#[verifier::external_body]
fn ohttp_server_decapsulate(server: &Server, request: &[u8]) -> (r: Option<
    (Vec<u8>, ServerResponse),
>)
    ensures
        match ohttp_request_opened(ohttp_server_config(*server), request@) {
            Some(bytes) => r matches Some(opened) && opened.0@ == bytes && ohttp_served(opened.1)
                == (ohttp_server_config(*server), request@),
            None => r is None,
        },
{
    server.decapsulate(request).ok()
}

/// `bitcoin_ohttp::ServerResponse::encapsulate`: the encapsulated response, 48 bytes longer than
/// the response. The client that sent the request opens it to the response. The encapsulated bytes
/// depend on chance.
#[verifier::external_body]
fn ohttp_server_encapsulate(ctx: ServerResponse, response: &[u8]) -> (r: Vec<u8>)
    requires
        response@.len() <= 65536,
    ensures
        r@.len() == response@.len() + 48,
        ohttp_response_opened(ohttp_served(ctx).0, ohttp_served(ctx).1, r@) == Some(response@),
{
    ctx.encapsulate(response).expect("a short response")
}

/// `bhttp::Message::response`, `write_content` and `write_bhttp` in known-length mode: the encoding
/// of a response without header fields, named `bhttp_response_bytes`. Beside the content, after its
/// length in at most 8 bytes, it holds five bytes. A final response is read back from it, also with
/// zeros behind it.
#[verifier::external_body]
fn bhttp_encode_response(status: u16, content: &[u8]) -> (r: Vec<u8>)
    requires
        100 <= status <= 599,
    ensures
        r@ == bhttp_response_bytes(status, content@),
        r@.len() <= content@.len() + 13,
        status >= 200 ==> forall|n: nat| #[trigger]
            bhttp_read(r@ + zeros(n)) == Some((Some(status), content@)),
{
    let status = bhttp::StatusCode::try_from(status).expect("a status");
    let mut message = bhttp::Message::response(status);
    message.write_content(content);
    let mut out = Vec::new();
    message.write_bhttp(bhttp::Mode::KnownLength, &mut out).expect("writing to memory");
    out
}

/// The key configuration of a test directory, with its secret key.
pub struct DirectoryKeyConfig {
    server: Server,
    keys: OhttpKeys,
}

impl DirectoryKeyConfig {
    #[verifier::type_invariant]
    spec fn agrees(self) -> bool {
        self.keys.config() == ohttp_server_config(self.server)
    }

    /// The public part: the OHTTP keys that clients use.
    pub closed spec fn spec_ohttp_keys(self) -> OhttpKeys {
        self.keys
    }

    /// The public part: the OHTTP keys that clients use.
    pub fn ohttp_keys(&self) -> (r: OhttpKeys)
        ensures
            r == self.spec_ohttp_keys(),
    {
        self.keys
    }
}

/// A new OHTTP key configuration with the algorithms of the Payjoin Directory.
pub fn test_ohttp_key_config() -> (r: DirectoryKeyConfig)
    ensures
        r.spec_ohttp_keys().key_id == KEY_ID,
        r.spec_ohttp_keys().key_id == 1,
{
    let server = ohttp_server_new(KEY_ID);
    let config = ohttp_server_encode(&server);
    let ghost key = choose|key: Seq<u8>|
        is_public_key(key) && ohttp_server_config(server) == #[trigger] config_bytes(KEY_ID, key);
    assert(config@ == config_bytes(KEY_ID, key));
    let key_bytes = slice_subrange(config.as_slice(), 3, 68);
    assert(key_bytes@ =~= key);
    let public_key = match HpkePublicKey::from_bytes(key_bytes) {
        Ok(public_key) => public_key,
        Err(_) => vstd::pervasive::unreached(),
    };
    DirectoryKeyConfig { server, keys: OhttpKeys { key_id: KEY_ID, public_key } }
}

/// Some bytes, cut or padded with zeros to the given length.
pub open spec fn resized(bytes: Seq<u8>, len: nat) -> Seq<u8> {
    if bytes.len() <= len {
        bytes + zeros((len - bytes.len()) as nat)
    } else {
        bytes.take(len as int)
    }
}

/// Decapsulate a directory OHTTP request, build a BHTTP response, and re-encapsulate it. There is
/// none where the request does not open. Whoever sent the request opens it to the padded response;
/// a final response of up to 8131 bytes is the directory's answer.
pub fn simulate_directory_response(
    key_config: &DirectoryKeyConfig,
    encapsulated_req: &[u8],
    status: u16,
    response_body: &[u8],
) -> (r: Option<Vec<u8>>)
    requires
        100 <= status <= 599,
    ensures
        match ohttp_request_opened(key_config.spec_ohttp_keys().config(), encapsulated_req@) {
            None => r is None,
            Some(_) => r matches Some(response) && {
                &&& response@.len() == ENCAPSULATED_MESSAGE_BYTES
                &&& ohttp_response_opened(
                    key_config.spec_ohttp_keys().config(),
                    encapsulated_req@,
                    response@,
                ) == Some(
                    resized(
                        bhttp_response_bytes(status, response_body@),
                        BHTTP_RES_BYTES as nat,
                    ),
                )
                &&& status >= 200 && response_body@.len() <= 8131 ==> forall|ctx: ClientResponse|
                    #[trigger] ohttp_exchange(ctx) == (
                        key_config.spec_ohttp_keys().config(),
                        encapsulated_req@,
                    ) ==> directory_answer(ctx, response@) == Ok::<_, DirectoryResponseError>(
                        (status, response_body@),
                    )
            },
        },
{
    proof {
        use_type_invariant(key_config);
    }
    let (_, server_ctx) = match ohttp_server_decapsulate(&key_config.server, encapsulated_req) {
        Some(opened) => opened,
        None => return None,
    };
    let mut bhttp_bytes = bhttp_encode_response(status, response_body);
    let ghost encoded = bhttp_bytes@;
    if bhttp_bytes.len() <= BHTTP_RES_BYTES {
        pad_zeros(&mut bhttp_bytes, BHTTP_RES_BYTES);
    } else {
        bhttp_bytes.truncate(BHTTP_RES_BYTES);
    }
    assert(bhttp_bytes@ == resized(encoded, BHTTP_RES_BYTES as nat));
    Some(ohttp_server_encapsulate(server_ctx, &bhttp_bytes))
}

/// Bytes that are too short are filled up with zeros, and bytes that are too long are cut.
pub proof fn law_resized_bytes(bytes: Seq<u8>, len: nat)
    ensures
        resized(bytes, len).len() == len,
        forall|i: int|
            0 <= i < len ==> #[trigger] resized(bytes, len)[i] == if i < bytes.len() {
                bytes[i]
            } else {
                0u8
            },
{
}

} // verus!
