//! Oblivious HTTP between a client and a Payjoin Directory.
//!
//! Every request and response is one fixed-size message. A request is a zero-padded binary HTTP
//! (BHTTP) request, encapsulated for the directory's key.
use bitcoin_ohttp::ClientResponse;

use vstd::prelude::*;
use vstd::slice::*;
use vstd::utf8::encode_utf8;

use crate::bytes::{append_bytes, bytes_equal, pad_zeros, zeros};
use crate::directory::{ENCAPSULATED_MESSAGE_BYTES, PADDED_MESSAGE_BYTES};
use crate::hpke::{compressed, is_public_key, HpkePublicKey};
use crate::text::{concat, decimal, decimal_string, ends_with, lemma_ends_with};
use crate::url::{parse_url, Url, UrlModel, UrlParseError};

verus! {

/// Size of a BHTTP request with its padding.
pub const PADDED_BHTTP_REQ_BYTES: usize = 8104;

/// The outside type `bitcoin_ohttp::ClientResponse`: what a client keeps of a request to read the
/// response with.
#[verifier::external_type_specification]
#[verifier::external_body]
pub struct ExClientResponse(bitcoin_ohttp::ClientResponse);

/// The key configuration and the encapsulated request that a response handler belongs to.
pub uninterp spec fn ohttp_exchange(ctx: ClientResponse) -> (Seq<u8>, Seq<u8>);

/// What the server with a key configuration opens an encapsulated request to.
pub uninterp spec fn ohttp_request_opened(config: Seq<u8>, request: Seq<u8>) -> Option<Seq<u8>>;

/// What the client that sent an encapsulated request to the server with a key configuration opens
/// an encapsulated response to.
pub uninterp spec fn ohttp_response_opened(
    config: Seq<u8>,
    request: Seq<u8>,
    response: Seq<u8>,
) -> Option<Seq<u8>>;

/// The binary HTTP encoding of a request without header fields.
pub uninterp spec fn bhttp_request_bytes(
    method: Seq<char>,
    scheme: Seq<char>,
    authority: Seq<char>,
    path: Seq<char>,
    content: Seq<u8>,
) -> Seq<u8>;

/// The status, where there is one, and the content of a binary HTTP message.
pub uninterp spec fn bhttp_read(bytes: Seq<u8>) -> Option<(Option<u16>, Seq<u8>)>;

/// The OHTTP key of a directory: a key id and an uncompressed public key. The algorithms are
/// fixed.
#[derive(Debug, Clone, Copy, PartialEq, Eq)]
pub struct OhttpKeys {
    pub key_id: u8,
    pub public_key: HpkePublicKey,
}

/// The encoded key configuration of a key: the KEM is DHKEM(secp256k1, HKDF-SHA256), the only
/// suite HKDF-SHA256 with ChaCha20Poly1305.
pub open spec fn config_bytes(key_id: u8, public_key: Seq<u8>) -> Seq<u8> {
    seq![key_id, 0u8, 22u8] + public_key + seq![0u8, 4, 0, 1, 0, 3]
}

impl OhttpKeys {
    /// The encoded key configuration.
    pub open spec fn config(self) -> Seq<u8> {
        config_bytes(self.key_id, self.public_key@)
    }

    /// The key id and the compressed public key, as they stand in a Payjoin URI.
    pub open spec fn compact(self) -> Seq<u8> {
        seq![self.key_id] + compressed(self.public_key@)
    }

    /// The encoded key configuration.
    pub fn encode(&self) -> (r: Vec<u8>)
        ensures
            r@ == self.config(),
            self.public_key.valid(),
    {
        let mut out: Vec<u8> = Vec::new();
        out.push(self.key_id);
        out.push(0);
        out.push(22);
        append_bytes(&mut out, self.public_key.to_bytes().as_slice());
        append_bytes(&mut out, &[0u8, 4, 0, 1, 0, 3]);
        assert(out@ =~= self.config());
        out
    }

    /// Reads an encoded key configuration.
    pub fn decode(config: &[u8]) -> (r: Option<OhttpKeys>)
        ensures
            match r {
                Some(keys) => keys.public_key.valid() && keys.config() == config@,
                None => forall|keys: OhttpKeys|
                    keys.public_key.valid() ==> #[trigger] keys.config() != config@,
            },
    {
        if config.len() != 74 {
            return None;
        }
        let key_bytes = slice_subrange(config, 3, 68);
        assert forall|keys: OhttpKeys|
            keys.public_key.valid() && #[trigger] keys.config() == config@ implies key_bytes@
            == keys.public_key@ by {
            assert(keys.config().subrange(3, 68) =~= keys.public_key@);
        }
        match HpkePublicKey::from_bytes(key_bytes) {
            Err(_) => None,
            Ok(public_key) => {
                let keys = OhttpKeys { key_id: config[0], public_key };
                if bytes_equal(&keys.encode(), config) {
                    Some(keys)
                } else {
                    proof {
                        assert forall|other: OhttpKeys|
                            other.public_key.valid() implies #[trigger] other.config() != config@ by {
                            if other.config() == config@ {
                                assert(other.key_id == config@[0]);
                                assert(other.public_key@ == key_bytes@);
                                assert(keys.config() == config@);
                            }
                        }
                    }
                    None
                }
            },
        }
    }
}

/// Errors when an OHTTP message is built or opened.
#[derive(Debug, Clone, Copy, PartialEq, Eq)]
pub enum OhttpEncapsulationError {
    /// The key or the encapsulated message cannot be used.
    Ohttp,
    /// The binary HTTP message does not fit or cannot be read.
    Bhttp,
    /// The target is no URL.
    ParseUrl(UrlParseError),
}

impl OhttpEncapsulationError {
    /// The message shown for this error.
    pub open spec fn spec_message(self) -> Seq<char> {
        match self {
            OhttpEncapsulationError::Ohttp => "ohttp error"@,
            OhttpEncapsulationError::Bhttp => "bhttp error"@,
            OhttpEncapsulationError::ParseUrl(e) => "url parse error: "@ + e.spec_message(),
        }
    }

    /// The message shown for this error.
    pub fn message(&self) -> (r: String)
        ensures
            r@ == self.spec_message(),
    {
        match self {
            Self::Ohttp => "ohttp error".to_owned(),
            Self::Bhttp => "bhttp error".to_owned(),
            Self::ParseUrl(e) => concat("url parse error: ", &e.message()),
        }
    }
}

/// Errors in what a directory answered.
#[derive(Debug, Clone, Copy, PartialEq, Eq)]
pub enum DirectoryResponseError {
    /// The response is not of the fixed size.
    InvalidSize(usize),
    /// The response does not open.
    OhttpDecapsulation(OhttpEncapsulationError),
    /// The directory answered with this status.
    UnexpectedStatusCode(u16),
}

impl DirectoryResponseError {
    /// Whether retrying is pointless.
    pub open spec fn spec_is_fatal(self) -> bool {
        match self {
            DirectoryResponseError::InvalidSize(_) => false,
            DirectoryResponseError::OhttpDecapsulation(_) => true,
            DirectoryResponseError::UnexpectedStatusCode(status) => 400 <= status < 500,
        }
    }

    /// Whether retrying is pointless: the response does not open, or the directory found fault
    /// with the request.
    pub fn is_fatal(&self) -> (r: bool)
        ensures
            r == self.spec_is_fatal(),
    {
        match self {
            Self::InvalidSize(_) => false,
            Self::OhttpDecapsulation(_) => true,
            Self::UnexpectedStatusCode(status) => 400 <= *status && *status < 500,
        }
    }

    /// The message shown for this error.
    pub open spec fn spec_message(self) -> Seq<char> {
        match self {
            DirectoryResponseError::InvalidSize(n) => "unexpected response size "@ + decimal(
                n as nat,
            ) + ", expected 8192 bytes"@,
            DirectoryResponseError::OhttpDecapsulation(e) => "OHTTP decapsulation error: "@
                + e.spec_message(),
            DirectoryResponseError::UnexpectedStatusCode(status) => "unexpected status code: "@
                + decimal(status as nat),
        }
    }

    /// The message shown for this error.
    pub fn message(&self) -> (r: String)
        ensures
            r@ == self.spec_message(),
    {
        match self {
            Self::InvalidSize(n) => concat(
                &concat("unexpected response size ", &decimal_string(*n as u64)),
                ", expected 8192 bytes",
            ),
            Self::OhttpDecapsulation(e) => concat("OHTTP decapsulation error: ", &e.message()),
            Self::UnexpectedStatusCode(status) => concat(
                "unexpected status code: ",
                &decimal_string(*status as u64),
            ),
        }
    }
}

/// An HTTP request for the caller to send.
#[derive(Debug, PartialEq, Eq)]
pub struct Request {
    pub url: String,
    pub content_type: &'static str,
    pub body: Vec<u8>,
}

impl Request {
    /// An OHTTP request.
    pub fn new_v2(url: &Url, body: &[u8]) -> (r: Request)
        ensures
            r.url@ == url@.text(),
            r.content_type@ == "message/ohttp-req"@,
            r.body@ == body@,
    {
        Request {
            url: url.as_string(),
            content_type: "message/ohttp-req",
            body: slice_to_vec(body),
        }
    }
}

/// `bhttp::Message::request`, `write_content` and `write_bhttp` in known-length mode: the encoding
/// of a request without header fields, named `bhttp_request_bytes`. Beside the five parts, each
/// after its length in at most 8 bytes, it holds three bytes.
#[verifier::external_body]
fn bhttp_encode_request(
    method: &str,
    scheme: &str,
    authority: &str,
    path: &str,
    content: &[u8],
) -> (r: Vec<u8>)
    ensures
        r@ == bhttp_request_bytes(method@, scheme@, authority@, path@, content@),
        r@.len() <= encode_utf8(method@).len() + encode_utf8(scheme@).len() + encode_utf8(
            authority@,
        ).len() + encode_utf8(path@).len() + content@.len() + 43,
{
    let mut message = bhttp::Message::request(
        method.into(),
        scheme.into(),
        authority.into(),
        path.into(),
    );
    message.write_content(content);
    let mut out = Vec::new();
    message.write_bhttp(bhttp::Mode::KnownLength, &mut out).expect("writing to memory");
    out
}

/// `bhttp::Message::read_bhttp`: the status, where the message is a response, and the content,
/// named `bhttp_read`; none where the bytes are no message.
#[verifier::external_body]
fn bhttp_decode(bytes: &[u8]) -> (r: Option<(Option<u16>, Vec<u8>)>)
    ensures
        match bhttp_read(bytes@) {
            Some((status, content)) => r matches Some(m) && m.0 == status && m.1@ == content,
            None => r is None,
        },
{
    let message = bhttp::Message::read_bhttp(&mut std::io::Cursor::new(bytes)).ok()?;
    Some((message.control().status().map(|s| s.code()), message.content().to_vec()))
}

/// `bitcoin_ohttp::ClientRequest::from_encoded_config` and `encapsulate`: the encapsulated request,
/// 88 bytes longer than the request, and the handler of its response. The server with the key
/// configuration opens it to the request. The encapsulated bytes depend on chance.
#[verifier::external_body]
fn ohttp_client_encapsulate(config: &[u8], request: &[u8]) -> (r: (Vec<u8>, ClientResponse))
    requires
        exists|key_id: u8, key: Seq<u8>|
            is_public_key(key) && config@ == #[trigger] config_bytes(key_id, key),
        request@.len() <= 65536,
    ensures
        r.0@.len() == request@.len() + 88,
        ohttp_request_opened(config@, r.0@) == Some(request@),
        ohttp_exchange(r.1) == (config@, r.0@),
{
    bitcoin_ohttp::ClientRequest::from_encoded_config(config)
        .expect("a supported configuration")
        .encapsulate(request)
        .expect("a short request")
}

/// `bitcoin_ohttp::ClientResponse::decapsulate`: what the client opens the response to, named
/// `ohttp_response_opened`; none where it does not open.
#[verifier::external_body]
fn ohttp_client_decapsulate(ctx: ClientResponse, response: &[u8]) -> (r: Option<Vec<u8>>)
    ensures
        match ohttp_response_opened(ohttp_exchange(ctx).0, ohttp_exchange(ctx).1, response@) {
            Some(bytes) => r is Some && r->0@ == bytes,
            None => r is None,
        },
{
    ctx.decapsulate(response).ok()
}

/// The zero-padded BHTTP request for `target`.
pub open spec fn padded_request(method: Seq<char>, target: UrlModel, content: Seq<u8>) -> Seq<u8> {
    let bytes = bhttp_request_bytes(method, target.scheme, target.authority, target.path, content);
    bytes + zeros((PADDED_BHTTP_REQ_BYTES - bytes.len()) as nat)
}

/// Whether the BHTTP request for `target` fits in an encapsulated message.
pub open spec fn request_fits(method: Seq<char>, target: UrlModel, content: Seq<u8>) -> bool {
    bhttp_request_bytes(method, target.scheme, target.authority, target.path, content).len()
        <= PADDED_BHTTP_REQ_BYTES
}

/// Whether the parts of a request beside its content take at most 893 bytes. Such a request fits
/// with any content of up to one mailbox frame.
pub open spec fn is_short_request(method: Seq<char>, target: UrlModel) -> bool {
    encode_utf8(method).len() + encode_utf8(target.scheme).len() + encode_utf8(
        target.authority,
    ).len() + encode_utf8(target.path).len() <= 893
}

/// Whether `message` is an encapsulated message that the directory with `keys` opens to the
/// request `method target` with the given content, and `ctx` the handler of its response.
pub open spec fn asks(
    message: Seq<u8>,
    ctx: ClientResponse,
    keys: OhttpKeys,
    method: Seq<char>,
    target: UrlModel,
    content: Seq<u8>,
) -> bool {
    &&& message.len() == ENCAPSULATED_MESSAGE_BYTES
    &&& request_fits(method, target, content)
    &&& ohttp_request_opened(keys.config(), message) == Some(
        padded_request(method, target, content),
    )
    &&& ohttp_exchange(ctx) == (keys.config(), message)
}

/// The error, if any, that encapsulating a request ends in.
pub open spec fn encapsulation_error(
    method: Seq<char>,
    target: Result<UrlModel, UrlParseError>,
    content: Seq<u8>,
) -> Option<OhttpEncapsulationError> {
    match target {
        Err(e) => Some(OhttpEncapsulationError::ParseUrl(e)),
        Ok(url) => if request_fits(method, url, content) {
            None
        } else {
            Some(OhttpEncapsulationError::Bhttp)
        },
    }
}

/// Encapsulates an HTTP request to `target_resource`.
pub fn ohttp_encapsulate(
    ohttp_keys: &OhttpKeys,
    method: &str,
    target_resource: &str,
    body: Option<&[u8]>,
) -> (r: Result<(Vec<u8>, ClientResponse), OhttpEncapsulationError>)
    ensures
        ({
            let content = match body {
                Some(b) => b@,
                None => Seq::empty(),
            };
            match r {
                Ok(sent) => {
                    &&& encapsulation_error(method@, parse_url(target_resource@), content) is None
                    &&& asks(
                        sent.0@,
                        sent.1,
                        *ohttp_keys,
                        method@,
                        parse_url(target_resource@)->Ok_0,
                        content,
                    )
                },
                Err(e) => {
                    &&& encapsulation_error(method@, parse_url(target_resource@), content) == Some(
                        e,
                    )
                    &&& parse_url(target_resource@) matches Ok(url) ==> !is_short_request(
                        method@,
                        url,
                    ) || content.len() > PADDED_MESSAGE_BYTES
                },
            }
        }),
{
    let config = ohttp_keys.encode();
    let no_content: Vec<u8> = Vec::new();
    let content = match body {
        Some(b) => b,
        None => no_content.as_slice(),
    };
    proof {
        if body is None {
            assert(content@ =~= Seq::<u8>::empty());
        }
        assert(config@ == config_bytes(ohttp_keys.key_id, ohttp_keys.public_key@));
    }
    let url = match Url::parse(target_resource) {
        Ok(url) => url,
        Err(e) => return Err(OhttpEncapsulationError::ParseUrl(e)),
    };
    let mut request = bhttp_encode_request(method, &url.scheme, &url.authority, &url.path, content);
    if request.len() > PADDED_BHTTP_REQ_BYTES {
        return Err(OhttpEncapsulationError::Bhttp);
    }
    pad_zeros(&mut request, PADDED_BHTTP_REQ_BYTES);
    Ok(ohttp_client_encapsulate(&config, &request))
}

/// An answer of the directory.
#[derive(Debug, PartialEq, Eq)]
pub struct DirectoryAnswer {
    pub status: u16,
    pub body: Vec<u8>,
}

/// What an opened response says: its status and content.
pub open spec fn read_answer(message: Option<(Option<u16>, Seq<u8>)>) -> Result<
    (u16, Seq<u8>),
    DirectoryResponseError,
> {
    match message {
        Some((Some(status), content)) => Ok((status, content)),
        _ => Err(
            DirectoryResponseError::OhttpDecapsulation(OhttpEncapsulationError::Bhttp),
        ),
    }
}

/// What a response means to the client that sent the request.
pub open spec fn directory_answer(ctx: ClientResponse, response: Seq<u8>) -> Result<
    (u16, Seq<u8>),
    DirectoryResponseError,
> {
    if response.len() != ENCAPSULATED_MESSAGE_BYTES {
        Err(DirectoryResponseError::InvalidSize(response.len() as usize))
    } else {
        match ohttp_response_opened(ohttp_exchange(ctx).0, ohttp_exchange(ctx).1, response) {
            None => Err(
                DirectoryResponseError::OhttpDecapsulation(OhttpEncapsulationError::Ohttp),
            ),
            Some(bytes) => read_answer(bhttp_read(bytes)),
        }
    }
}

/// Reads the answer off a decoded message.
pub fn answer_of_message(message: Option<(Option<u16>, Vec<u8>)>) -> (r: Result<
    DirectoryAnswer,
    DirectoryResponseError,
>)
    ensures
        match read_answer(
            match message {
                Some((status, content)) => Some((status, content@)),
                None => None,
            },
        ) {
            Ok((status, content)) => r is Ok && r->Ok_0.status == status && r->Ok_0.body@
                == content,
            Err(e) => r == Err::<DirectoryAnswer, _>(e),
        },
{
    match message {
        Some((Some(status), body)) => Ok(DirectoryAnswer { status, body }),
        _ => Err(DirectoryResponseError::OhttpDecapsulation(OhttpEncapsulationError::Bhttp)),
    }
}

/// Opens a response of the directory.
pub fn process_ohttp_res(res: &[u8], ctx: ClientResponse) -> (r: Result<
    DirectoryAnswer,
    DirectoryResponseError,
>)
    ensures
        match directory_answer(ctx, res@) {
            Ok((status, content)) => r is Ok && r->Ok_0.status == status && r->Ok_0.body@
                == content,
            Err(e) => r == Err::<DirectoryAnswer, _>(e),
        },
{
    if res.len() != ENCAPSULATED_MESSAGE_BYTES {
        return Err(DirectoryResponseError::InvalidSize(res.len()));
    }
    match ohttp_client_decapsulate(ctx, res) {
        None => Err(DirectoryResponseError::OhttpDecapsulation(OhttpEncapsulationError::Ohttp)),
        Some(bytes) => answer_of_message(bhttp_decode(&bytes)),
    }
}

/// What an answer to a GET means: the content of the mailbox, or nothing yet.
pub open spec fn get_outcome(answer: Result<(u16, Seq<u8>), DirectoryResponseError>) -> Result<
    Option<Seq<u8>>,
    DirectoryResponseError,
> {
    match answer {
        Err(e) => Err(e),
        Ok((status, content)) => if status == 200 {
            Ok(Some(content))
        } else if status == 202 {
            Ok(None)
        } else {
            Err(DirectoryResponseError::UnexpectedStatusCode(status))
        },
    }
}

/// What an answer to a POST means.
pub open spec fn post_outcome(answer: Result<(u16, Seq<u8>), DirectoryResponseError>) -> Result<
    (),
    DirectoryResponseError,
> {
    match answer {
        Err(e) => Err(e),
        Ok((status, content)) => if status == 200 {
            Ok(())
        } else {
            Err(DirectoryResponseError::UnexpectedStatusCode(status))
        },
    }
}

impl DirectoryAnswer {
    /// What this answer to a GET means.
    pub fn into_get_outcome(self) -> (r: Result<Option<Vec<u8>>, DirectoryResponseError>)
        ensures
            match get_outcome(Ok((self.status, self.body@))) {
                Ok(Some(content)) => r matches Ok(Some(body)) && body@ == content,
                Ok(None) => r == Ok::<Option<Vec<u8>>, DirectoryResponseError>(None),
                Err(e) => r == Err::<Option<Vec<u8>>, _>(e),
            },
    {
        match self.status {
            200 => Ok(Some(self.body)),
            202 => Ok(None),
            status => Err(DirectoryResponseError::UnexpectedStatusCode(status)),
        }
    }

    /// What this answer to a POST means.
    pub fn into_post_outcome(self) -> (r: Result<(), DirectoryResponseError>)
        ensures
            r == post_outcome(Ok((self.status, self.body@))),
    {
        match self.status {
            200 => Ok(()),
            status => Err(DirectoryResponseError::UnexpectedStatusCode(status)),
        }
    }
}

/// Processes the response to a GET: the content of the mailbox, or nothing yet.
pub fn process_get_res(res: &[u8], ctx: ClientResponse) -> (r: Result<
    Option<Vec<u8>>,
    DirectoryResponseError,
>)
    ensures
        match get_outcome(directory_answer(ctx, res@)) {
            Ok(Some(content)) => r matches Ok(Some(body)) && body@ == content,
            Ok(None) => r == Ok::<Option<Vec<u8>>, DirectoryResponseError>(None),
            Err(e) => r == Err::<Option<Vec<u8>>, _>(e),
        },
{
    match process_ohttp_res(res, ctx) {
        Ok(answer) => answer.into_get_outcome(),
        Err(e) => Err(e),
    }
}

/// Processes the response to a POST.
pub fn process_post_res(res: &[u8], ctx: ClientResponse) -> (r: Result<(), DirectoryResponseError>)
    ensures
        r == post_outcome(directory_answer(ctx, res@)),
{
    match process_ohttp_res(res, ctx) {
        Ok(answer) => answer.into_post_outcome(),
        Err(e) => Err(e),
    }
}

/// The gateway on `ohttp_relay` through which `directory` is reached.
pub open spec fn relay_url(ohttp_relay: Seq<char>, directory: UrlModel) -> Result<
    UrlModel,
    UrlParseError,
> {
    match parse_url(ohttp_relay) {
        Ok(relay) => Ok(relay.relay_to(directory)),
        Err(e) => Err(e),
    }
}

/// The gateway on `ohttp_relay` through which `directory` is reached. Of the directory, the relay
/// learns the scheme and the authority alone.
pub fn full_relay_url(ohttp_relay: &str, directory: &Url) -> (r: Result<Url, UrlParseError>)
    ensures
        match relay_url(ohttp_relay@, directory@) {
            Ok(url) => r is Ok && r->Ok_0@ == url,
            Err(e) => r == Err::<Url, _>(e),
        },
{
    match Url::parse(ohttp_relay) {
        Ok(relay) => Ok(relay.relay_to(directory)),
        Err(e) => Err(e),
    }
}

/// The relay learns nothing of the mailbox: two URLs of one directory are reached through the
/// same gateway.
pub proof fn law_relay_learns_only_the_origin(relay: UrlModel, a: UrlModel, b: UrlModel)
    requires
        a.scheme == b.scheme,
        a.authority == b.authority,
    ensures
        relay.relay_to(a) == relay.relay_to(b),
{
}

/// An answer to a GET is the content of the mailbox with status 200, nothing yet with status 202, and
/// an error that names the status otherwise.
pub proof fn law_get_is_answered(status: u16, content: Seq<u8>, e: DirectoryResponseError)
    ensures
        status == 200 ==> get_outcome(Ok((status, content))) == Ok::<_, DirectoryResponseError>(
            Some(content),
        ),
        status == 202 ==> get_outcome(Ok((status, content))) == Ok::<_, DirectoryResponseError>(
            None::<Seq<u8>>,
        ),
        status != 200 && status != 202 ==> get_outcome(Ok((status, content))) == Err::<
            Option<Seq<u8>>,
            _,
        >(DirectoryResponseError::UnexpectedStatusCode(status)),
        get_outcome(Err(e)) == Err::<Option<Seq<u8>>, _>(e),
{
}

/// A POST succeeds with status 200 and no other; the error names the status.
pub proof fn law_post_is_answered(status: u16, content: Seq<u8>, e: DirectoryResponseError)
    ensures
        status == 200 <==> post_outcome(Ok((status, content))) is Ok,
        status != 200 ==> post_outcome(Ok((status, content))) == Err::<(), _>(
            DirectoryResponseError::UnexpectedStatusCode(status),
        ),
        post_outcome(Err(e)) == Err::<(), _>(e),
{
}

/// What ends a session: a response that does not open, or a status that finds fault with the request.
/// A response of the wrong size, and any other status, may be better the next time.
pub proof fn law_final_failures(e: DirectoryResponseError)
    ensures
        e.spec_is_fatal() <==> e is OhttpDecapsulation || (e matches
            DirectoryResponseError::UnexpectedStatusCode(status) && status / 100 == 4),
{
}

/// A response is read only where it has the fixed size, opens with the state of its request, and says
/// a status; then the answer is that status and the content.
pub proof fn law_response_is_read(ctx: ClientResponse, response: Seq<u8>)
    requires
        response.len() <= usize::MAX,
    ensures
        response.len() != 8192 ==> (directory_answer(ctx, response) matches Err(
            DirectoryResponseError::InvalidSize(n),
        ) && n == response.len()),
        response.len() == 8192 ==> {
            let (config, request) = ohttp_exchange(ctx);
            match ohttp_response_opened(config, request, response) {
                None => directory_answer(ctx, response) == Err::<(u16, Seq<u8>), _>(
                    DirectoryResponseError::OhttpDecapsulation(OhttpEncapsulationError::Ohttp),
                ),
                Some(bytes) => match bhttp_read(bytes) {
                    Some((Some(status), content)) => directory_answer(ctx, response) == Ok::<
                        _,
                        DirectoryResponseError,
                    >((status, content)),
                    Some((None, _)) | None => directory_answer(ctx, response) == Err::<
                        (u16, Seq<u8>),
                        _,
                    >(DirectoryResponseError::OhttpDecapsulation(OhttpEncapsulationError::Bhttp)),
                },
            }
        },
{
}

/// What the directory opens an encapsulated request to: the method, the parts of the target and the
/// content, as a binary HTTP request, followed by nothing but zero bytes. The message has the fixed
/// size, and the state kept for the response is that of the message and of the directory's key.
pub proof fn law_request_says_what_is_asked(
    message: Seq<u8>,
    ctx: ClientResponse,
    keys: OhttpKeys,
    method: Seq<char>,
    target: UrlModel,
    content: Seq<u8>,
)
    requires
        asks(message, ctx, keys, method, target, content),
    ensures
        ({
            let config = seq![keys.key_id, 0u8, 22u8] + keys.public_key@ + seq![0u8, 4, 0, 1, 0, 3];
            let request = bhttp_request_bytes(
                method,
                target.scheme,
                target.authority,
                target.path,
                content,
            );
            &&& message.len() == 8192
            &&& ohttp_exchange(ctx) == (config, message)
            &&& ohttp_request_opened(config, message) matches Some(opened)
            &&& opened.len() == 8104
            &&& request.len() <= opened.len()
            &&& opened.take(request.len() as int) == request
            &&& forall|i: int| request.len() <= i < opened.len() ==> #[trigger] opened[i] == 0
        }),
{
    let request = bhttp_request_bytes(
        method,
        target.scheme,
        target.authority,
        target.path,
        content,
    );
    assert(padded_request(method, target, content).take(request.len() as int) =~= request);
}

/// A request is refused where the target is no URL, or where it does not fit, and only then.
pub proof fn law_request_is_refused(
    method: Seq<char>,
    target: Result<UrlModel, UrlParseError>,
    content: Seq<u8>,
)
    ensures
        match target {
            Err(e) => encapsulation_error(method, target, content) == Some(
                OhttpEncapsulationError::ParseUrl(e),
            ),
            Ok(url) => encapsulation_error(method, target, content) == (if bhttp_request_bytes(
                method,
                url.scheme,
                url.authority,
                url.path,
                content,
            ).len() > 8104 {
                Some(OhttpEncapsulationError::Bhttp)
            } else {
                None::<OhttpEncapsulationError>
            }),
        },
{
}

/// A directory is reached through the gateway that the relay has for its scheme and authority, where
/// the relay is a URL.
pub proof fn law_gateway_is_on_the_relay(ohttp_relay: Seq<char>, directory: UrlModel)
    ensures
        match parse_url(ohttp_relay) {
            Err(e) => relay_url(ohttp_relay, directory) == Err::<UrlModel, _>(e),
            Ok(relay) => relay_url(ohttp_relay, directory) matches Ok(gateway) && gateway.text()
                == relay.scheme + "://"@ + relay.authority + "/"@ + directory.scheme + "://"@
                + directory.authority + "/"@,
        },
{
    reveal_strlit("/");
    if let Ok(relay) = parse_url(ohttp_relay) {
        assert(relay.relay_to(directory).text() =~= relay.scheme + "://"@ + relay.authority + "/"@
            + directory.scheme + "://"@ + directory.authority + "/"@);
    }
}

/// The message of an error that has a cause ends with the message of the cause, and that of an
/// unexpected status with its code.
pub proof fn law_message_ends_with_the_cause(e: DirectoryResponseError)
    ensures
        match e {
            DirectoryResponseError::OhttpDecapsulation(cause) => ends_with(
                e.spec_message(),
                cause.spec_message(),
            ),
            DirectoryResponseError::UnexpectedStatusCode(status) => ends_with(
                e.spec_message(),
                decimal(status as nat),
            ),
            _ => true,
        },
{
    match e {
        DirectoryResponseError::OhttpDecapsulation(cause) => lemma_ends_with(
            "OHTTP decapsulation error: "@,
            cause.spec_message(),
        ),
        DirectoryResponseError::UnexpectedStatusCode(status) => lemma_ends_with(
            "unexpected status code: "@,
            decimal(status as nat),
        ),
        _ => {},
    }
}

} // verus!
