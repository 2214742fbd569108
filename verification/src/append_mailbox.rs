//! Client helpers for append-only Payjoin Directory mailboxes.
//!
//! A mailbox is addressed by a [`ShortId`] and holds a sequence of fixed-size HPKE-encrypted
//! frames. [`append_request`] encrypts a message and builds the request to append it;
//! [`read_request`] reads the whole mailbox and [`process_read_response`] decrypts the frames
//! addressed to the reader. The caller supplies the [`ShortId`] and the HPKE keys, and sends each
//! returned [`Request`] with its own HTTP client.
use bitcoin_ohttp::ClientResponse;

use vstd::prelude::*;
use vstd::std_specs::convert::FromSpecImpl;
use vstd::slice::*;

use crate::bytes::{
    lemma_padding_undoes_trim, lemma_trim_undoes_padding, lemma_trimmed_ends, trim_trailing_zeros,
    without_trailing_zeros, zeros,
};
use crate::directory::{
    mailbox_endpoint, mailbox_url, short_id_text, ShortId, PADDED_MESSAGE_BYTES,
};
use crate::hpke::{
    carries, decrypt_message_a, encrypt_message_a, hpke_public_of, message_a_opened, HpkeError,
    HpkeKeyPair, HpkePublicKey, PADDED_PLAINTEXT_A_LENGTH,
};
use crate::ohttp::{
    asks, directory_answer, encapsulation_error, full_relay_url, get_outcome, is_short_request,
    ohttp_encapsulate, post_outcome, process_get_res, process_post_res, relay_url,
    DirectoryResponseError, OhttpEncapsulationError, OhttpKeys, Request,
};
use crate::text::{concat, decimal, decimal_string, ends_with, lemma_ends_with};
use crate::url::{law_url_text_round_trips, parse_url, Url, UrlModel, UrlParseError};

verus! {

/// Pairs a mailbox request with the state needed to read its response.
///
/// Hold it between sending a [`Request`] and processing the response; it is consumed when the
/// response is processed.
pub struct MailboxCtx(pub(crate) ClientResponse);

impl MailboxCtx {
    /// The handler of the response.
    pub closed spec fn handler(self) -> ClientResponse {
        self.0
    }

    pub(crate) fn new(ctx: ClientResponse) -> (r: MailboxCtx)
        ensures
            r.handler() == ctx,
    {
        MailboxCtx(ctx)
    }

    pub(crate) fn into_handler(self) -> (r: ClientResponse)
        ensures
            r == self.handler(),
    {
        self.0
    }
}

/// Error from building or processing a mailbox request.
#[derive(Debug, Clone, Copy, PartialEq, Eq)]
pub enum MailboxError {
    /// Failed to OHTTP-encapsulate the request.
    Encapsulation(OhttpEncapsulationError),
    /// The directory returned an unexpected or undecodable response.
    Response(DirectoryResponseError),
    /// Failed to parse the directory or relay URL.
    ParseUrl(UrlParseError),
    /// Failed to interpret the OHTTP relay argument as a URL.
    IntoUrl(UrlParseError),
    /// Failed to HPKE-seal a message into a frame.
    Hpke(HpkeError),
    /// The mailbox payload was not a whole number of frames.
    PartialFrame { len: usize },
}

impl MailboxError {
    /// The message shown for this error.
    pub open spec fn spec_message(self) -> Seq<char> {
        match self {
            MailboxError::Encapsulation(e) => "OHTTP encapsulation error: "@ + e.spec_message(),
            MailboxError::Response(e) => "directory response error: "@ + e.spec_message(),
            MailboxError::ParseUrl(e) => "URL parse error: "@ + e.spec_message(),
            MailboxError::IntoUrl(e) => "invalid relay URL: "@ + e.spec_message(),
            MailboxError::Hpke(e) => "HPKE error: "@ + e.spec_message(),
            MailboxError::PartialFrame { len } => "mailbox payload of "@ + decimal(len as nat)
                + " bytes is not a whole number of frames"@,
        }
    }

    /// The message shown for this error.
    pub fn message(&self) -> (r: String)
        ensures
            r@ == self.spec_message(),
    {
        match self {
            Self::Encapsulation(e) => concat("OHTTP encapsulation error: ", &e.message()),
            Self::Response(e) => concat("directory response error: ", &e.message()),
            Self::ParseUrl(e) => concat("URL parse error: ", &e.message()),
            Self::IntoUrl(e) => concat("invalid relay URL: ", &e.message()),
            Self::Hpke(e) => concat("HPKE error: ", &e.message()),
            Self::PartialFrame { len } => concat(
                &concat("mailbox payload of ", &decimal_string(*len as u64)),
                " bytes is not a whole number of frames",
            ),
        }
    }
}

/// What reading the URL of a mailbox off its text gives.
pub open spec fn mailbox_target(directory: UrlModel, mailbox: Seq<u8>) -> Result<
    UrlModel,
    UrlParseError,
> {
    parse_url(mailbox_url(directory, mailbox).text())
}

/// Whether `request` is to be sent through `ohttp_relay` and asks the directory with `keys` for
/// `method target` with the given content; `ctx` is the handler of its response.
pub open spec fn sends(
    request: Request,
    ctx: ClientResponse,
    ohttp_relay: Seq<char>,
    directory: UrlModel,
    keys: OhttpKeys,
    method: Seq<char>,
    target: Result<UrlModel, UrlParseError>,
    content: Seq<u8>,
) -> bool {
    &&& relay_url(ohttp_relay, directory) matches Ok(gateway) && request.url@ == gateway.text()
    &&& request.content_type@ == "message/ohttp-req"@
    &&& target matches Ok(url) && asks(request.body@, ctx, keys, method, url, content)
}

/// Whether the mailbox can be named in a request where the directory is well formed.
pub open spec fn can_be_named(directory: UrlModel, mailbox: Seq<u8>) -> bool {
    directory.well_formed() ==> mailbox_target(directory, mailbox) == Ok::<_, UrlParseError>(
        mailbox_url(directory, mailbox),
    )
}

/// The URL of a mailbox on a well-formed directory is read back from its text.
pub(crate) proof fn lemma_can_be_named(directory: UrlModel, mailbox: Seq<u8>)
    requires
        directory.well_formed() ==> mailbox_url(directory, mailbox).well_formed(),
    ensures
        can_be_named(directory, mailbox),
{
    if directory.well_formed() {
        law_url_text_round_trips(mailbox_url(directory, mailbox));
    }
}

/// Whether `e` is what encapsulating a request without content for `target` ends in. A short
/// request is encapsulated.
pub open spec fn get_refused(
    target: Result<UrlModel, UrlParseError>,
    e: OhttpEncapsulationError,
) -> bool {
    &&& encapsulation_error("GET"@, target, Seq::empty()) == Some(e)
    &&& target matches Ok(url) ==> !is_short_request("GET"@, url)
}

/// Whether `e` is what encapsulating a frame for `target` ends in. A frame in a short request is
/// encapsulated.
pub open spec fn post_refused(
    target: Result<UrlModel, UrlParseError>,
    frame: Seq<u8>,
    e: OhttpEncapsulationError,
) -> bool {
    &&& encapsulation_error("POST"@, target, frame) == Some(e)
    &&& target matches Ok(url) ==> !is_short_request("POST"@, url)
}

/// Whether reading a mailbox starts with the request that it calls for.
pub open spec fn read_request_due(
    ohttp_keys: OhttpKeys,
    directory: UrlModel,
    ohttp_relay: Seq<char>,
    mailbox: Seq<u8>,
    r: Result<(Request, MailboxCtx), MailboxError>,
) -> bool {
    let target = mailbox_target(directory, mailbox);
    &&& can_be_named(directory, mailbox)
    &&& match r {
        Ok((request, ctx)) => sends(
            request,
            ctx.handler(),
            ohttp_relay,
            directory,
            ohttp_keys,
            "GET"@,
            target,
            Seq::empty(),
        ),
        Err(MailboxError::Encapsulation(e)) => get_refused(target, e),
        Err(MailboxError::IntoUrl(e)) => {
            &&& encapsulation_error("GET"@, target, Seq::empty()) is None
            &&& parse_url(ohttp_relay) == Err::<UrlModel, _>(e)
        },
        Err(_) => false,
    }
}

/// Whether appending to a mailbox starts with the request that it calls for.
pub open spec fn append_request_due(
    ohttp_keys: OhttpKeys,
    directory: UrlModel,
    ohttp_relay: Seq<char>,
    mailbox: Seq<u8>,
    message: Seq<u8>,
    reply_key: HpkePublicKey,
    receiver_key: HpkePublicKey,
    r: Result<(Request, MailboxCtx), MailboxError>,
) -> bool {
    let target = mailbox_target(directory, mailbox);
    if message.len() > PADDED_PLAINTEXT_A_LENGTH {
        r == Err::<(Request, MailboxCtx), _>(
            MailboxError::Hpke(
                HpkeError::PayloadTooLarge {
                    actual: message.len() as usize,
                    max: PADDED_PLAINTEXT_A_LENGTH,
                },
            ),
        )
    } else {
        &&& can_be_named(directory, mailbox)
        &&& exists|frame: Seq<u8>|
            {
                &&& #[trigger] carries(frame, message, reply_key, receiver_key)
                &&& match r {
                    Ok((request, ctx)) => sends(
                        request,
                        ctx.handler(),
                        ohttp_relay,
                        directory,
                        ohttp_keys,
                        "POST"@,
                        target,
                        frame,
                    ),
                    Err(MailboxError::Encapsulation(e)) => post_refused(target, frame, e),
                    Err(MailboxError::IntoUrl(e)) => {
                        &&& encapsulation_error("POST"@, target, frame) is None
                        &&& parse_url(ohttp_relay) == Err::<UrlModel, _>(e)
                    },
                    Err(_) => false,
                }
            }
    }
}

/// Build the request that encrypts `message` and appends it to `mailbox`.
///
/// `message` is HPKE-sealed to `receiver_key` into one [`PADDED_MESSAGE_BYTES`] frame; `reply_key`
/// is the sender's public key, carried inside the ciphertext so the recipient can reply. Returns
/// the [`Request`] to send and the [`MailboxCtx`] to process its response with.
pub fn append_request(
    ohttp_keys: &OhttpKeys,
    directory: &Url,
    ohttp_relay: &str,
    mailbox: &ShortId,
    message: &[u8],
    reply_key: &HpkePublicKey,
    receiver_key: &HpkePublicKey,
) -> (r: Result<(Request, MailboxCtx), MailboxError>)
    ensures
        append_request_due(
            *ohttp_keys,
            directory@,
            ohttp_relay@,
            mailbox@,
            message@,
            *reply_key,
            *receiver_key,
            r,
        ),
{
    let frame = match encrypt_message_a(slice_to_vec(message), reply_key, receiver_key) {
        Ok(frame) => frame,
        Err(e) => return Err(MailboxError::Hpke(e)),
    };
    assert(carries(frame@, message@, *reply_key, *receiver_key));
    let target = mailbox_endpoint(directory, mailbox);
    proof {
        lemma_can_be_named(directory@, mailbox@);
    }
    let (body, ctx) = match ohttp_encapsulate(
        ohttp_keys,
        "POST",
        &target.as_string(),
        Some(&frame),
    ) {
        Ok(sent) => sent,
        Err(e) => return Err(MailboxError::Encapsulation(e)),
    };
    let relay = match full_relay_url(ohttp_relay, directory) {
        Ok(relay) => relay,
        Err(e) => return Err(MailboxError::IntoUrl(e)),
    };
    Ok((Request::new_v2(&relay, &body), MailboxCtx::new(ctx)))
}

/// Process the response to an [`append_request`].
pub fn process_append_response(res: &[u8], ctx: MailboxCtx) -> (r: Result<(), MailboxError>)
    ensures
        r == (match post_outcome(directory_answer(ctx.handler(), res@)) {
            Ok(()) => Ok::<(), MailboxError>(()),
            Err(e) => Err(MailboxError::Response(e)),
        }),
{
    match process_post_res(res, ctx.into_handler()) {
        Ok(()) => Ok(()),
        Err(e) => Err(MailboxError::Response(e)),
    }
}

/// Build the request that reads the entire `mailbox`.
pub fn read_request(
    ohttp_keys: &OhttpKeys,
    directory: &Url,
    ohttp_relay: &str,
    mailbox: &ShortId,
) -> (r: Result<(Request, MailboxCtx), MailboxError>)
    ensures
        read_request_due(*ohttp_keys, directory@, ohttp_relay@, mailbox@, r),
{
    let target = mailbox_endpoint(directory, mailbox);
    proof {
        lemma_can_be_named(directory@, mailbox@);
    }
    let (body, ctx) = match ohttp_encapsulate(ohttp_keys, "GET", &target.as_string(), None) {
        Ok(sent) => sent,
        Err(e) => return Err(MailboxError::Encapsulation(e)),
    };
    let relay = match full_relay_url(ohttp_relay, directory) {
        Ok(relay) => relay,
        Err(e) => return Err(MailboxError::IntoUrl(e)),
    };
    Ok((Request::new_v2(&relay, &body), MailboxCtx::new(ctx)))
}

/// A mailbox frame decrypted by the reader.
#[derive(Debug, PartialEq, Eq)]
pub struct DecryptedMessage {
    /// The plaintext message, without the zero bytes at its end.
    pub plaintext: Vec<u8>,
    /// The sender's reply public key, carried in the frame, to reply to them.
    pub reply_key: HpkePublicKey,
}

/// What the holder of `secret` reads in one frame, if anything: the message and the sender's key.
pub open spec fn frame_message(secret: Seq<u8>, frame: Seq<u8>) -> Option<(Seq<u8>, Seq<u8>)> {
    match message_a_opened(secret, frame) {
        Ok((body, reply_key)) => Some((without_trailing_zeros(body), reply_key)),
        Err(_) => None,
    }
}

/// What the holder of `secret` reads in some frames, in order.
pub open spec fn frame_messages(secret: Seq<u8>, frames: Seq<Seq<u8>>) -> Seq<(Seq<u8>, Seq<u8>)>
    decreases frames.len(),
{
    if frames.len() == 0 {
        Seq::empty()
    } else {
        let before = frame_messages(secret, frames.drop_last());
        match frame_message(secret, frames.last()) {
            Some(message) => before.push(message),
            None => before,
        }
    }
}

/// The bytes of each of some frames.
pub open spec fn frame_views(frames: Seq<Vec<u8>>) -> Seq<Seq<u8>> {
    frames.map_values(|f: Vec<u8>| f@)
}

/// The message and the sender's key of each of some messages.
pub open spec fn message_views(messages: Seq<DecryptedMessage>) -> Seq<(Seq<u8>, Seq<u8>)> {
    messages.map_values(|m: DecryptedMessage| (m.plaintext@, m.reply_key@))
}

/// Whether a frame opens for the holder of `secret`, and says a message: the sender's reply key, and
/// a body that is the plaintext followed by nothing but zero bytes.
pub open spec fn says(secret: Seq<u8>, frame: Seq<u8>, message: DecryptedMessage) -> bool {
    let plaintext = message.plaintext@;
    &&& message_a_opened(secret, frame) matches Ok((body, reply_key))
    &&& message.reply_key@ == reply_key
    &&& plaintext.len() <= body.len()
    &&& plaintext + zeros((body.len() - plaintext.len()) as nat) == body
    &&& plaintext.len() == 0 || plaintext.last() != 0
}

/// Whether the frames at the positions `opened` are those that open for the holder of `secret`, and
/// the messages what they say, in their order.
pub open spec fn reads_off(
    secret: Seq<u8>,
    frames: Seq<Vec<u8>>,
    opened: Seq<int>,
    messages: Seq<DecryptedMessage>,
) -> bool {
    &&& opened.len() == messages.len()
    &&& forall|k: int, l: int|
        0 <= k < l < opened.len() ==> #[trigger] opened[k] < #[trigger] opened[l]
    &&& forall|k: int| 0 <= k < opened.len() ==> 0 <= #[trigger] opened[k] < frames.len()
    &&& forall|k: int|
        0 <= k < opened.len() ==> says(secret, frames[#[trigger] opened[k]]@, messages[k])
    &&& forall|i: int|
        0 <= i < frames.len() && message_a_opened(secret, (#[trigger] frames[i])@) is Ok
            ==> opened.contains(i)
}

/// The frames of a mailbox payload, where it is a whole number of them.
pub open spec fn frames_of(blob: Seq<u8>) -> Option<Seq<Seq<u8>>> {
    if blob.len() % (PADDED_MESSAGE_BYTES as nat) == 0 {
        Some(
            Seq::new(
                blob.len() / (PADDED_MESSAGE_BYTES as nat),
                |i: int| blob.subrange(
                    i * PADDED_MESSAGE_BYTES,
                    i * PADDED_MESSAGE_BYTES + PADDED_MESSAGE_BYTES,
                ),
            ),
        )
    } else {
        None
    }
}

/// Decrypt the frames addressed to `receiver_keypair`, skipping the rest.
pub fn decrypt_frames(frames: &Vec<Vec<u8>>, receiver_keypair: &HpkeKeyPair) -> (r: Vec<
    DecryptedMessage,
>)
    ensures
        message_views(r@) == frame_messages(receiver_keypair.secret@, frame_views(frames@)),
        exists|opened: Seq<int>| #[trigger] reads_off(receiver_keypair.secret@, frames@, opened, r@),
{
    let ghost secret = receiver_keypair.secret@;
    let ghost all = frame_views(frames@);
    let mut messages: Vec<DecryptedMessage> = Vec::new();
    let mut i: usize = 0;
    let ghost mut opened: Seq<int> = Seq::empty();
    assert(message_views(messages@) =~= frame_messages(secret, all.take(0)));
    while i < frames.len()
        invariant
            i <= frames@.len(),
            all == frame_views(frames@),
            secret == receiver_keypair.secret@,
            message_views(messages@) == frame_messages(secret, all.take(i as int)),
            reads_off(secret, frames@.take(i as int), opened, messages@),
        decreases frames@.len() - i,
    {
        let ghost before = message_views(messages@);
        let ghost earlier = messages@;
        let ghost front = frames@.take(i as int);
        proof {
            assert(frames@.take(i + 1) =~= front.push(frames@[i as int]));
            assert(all.take(i + 1).drop_last() =~= all.take(i as int));
            assert(all.take(i + 1).last() == frames@[i as int]@);
        }
        if let Ok((body, reply_key)) = decrypt_message_a(&frames[i], receiver_keypair.secret_key()) {
            let plaintext = trim_trailing_zeros(&body);
            messages.push(DecryptedMessage { plaintext, reply_key });
            assert(message_views(messages@) =~= before.push((plaintext@, reply_key@)));
            proof {
                lemma_padding_undoes_trim(body@);
                lemma_trimmed_ends(body@);
                assert forall|k: int| 0 <= k < opened.push(i as int).len() implies says(
                    secret,
                    frames@.take(i + 1)[#[trigger] opened.push(i as int)[k]]@,
                    messages@[k],
                ) by {
                    if k < opened.len() {
                        assert(says(secret, front[opened[k]]@, earlier[k]));
                    }
                }
                assert forall|j: int|
                    0 <= j < i + 1 && message_a_opened(
                        secret,
                        (#[trigger] frames@.take(i + 1)[j])@,
                    ) is Ok implies opened.push(i as int).contains(j) by {
                    if j < i {
                        assert(front[j] == frames@.take(i + 1)[j]);
                        let k = opened.index_of(j);
                        assert(opened.push(i as int)[k] == j);
                    } else {
                        assert(opened.push(i as int)[opened.len() as int] == j);
                    }
                }
                opened = opened.push(i as int);
            }
        } else {
            assert forall|j: int|
                0 <= j < i + 1 && message_a_opened(
                    secret,
                    (#[trigger] frames@.take(i + 1)[j])@,
                ) is Ok implies opened.contains(j) by {
                assert(j < i);
                assert(front[j] == frames@.take(i + 1)[j]);
            }
            assert forall|k: int| 0 <= k < opened.len() implies says(
                secret,
                frames@.take(i + 1)[#[trigger] opened[k]]@,
                messages@[k],
            ) by {
                assert(says(secret, front[opened[k]]@, earlier[k]));
            }
        }
        i += 1;
    }
    assert(all.take(i as int) =~= all);
    assert(frames@.take(i as int) =~= frames@);
    messages
}

/// Split a concatenated mailbox payload into its fixed-size frames.
///
/// Every frame is [`PADDED_MESSAGE_BYTES`]; a payload that isn't a whole number of frames is
/// rejected as truncated rather than yielding a partial frame.
pub fn split_frames(blob: &[u8]) -> (r: Result<Vec<Vec<u8>>, MailboxError>)
    ensures
        match frames_of(blob@) {
            Some(frames) => r is Ok && frame_views(r->Ok_0@) == frames,
            None => r == Err::<Vec<Vec<u8>>, _>(
                MailboxError::PartialFrame { len: blob@.len() as usize },
            ),
        },
{
    if blob.len() % PADDED_MESSAGE_BYTES != 0 {
        return Err(MailboxError::PartialFrame { len: blob.len() });
    }
    let count: usize = blob.len() / PADDED_MESSAGE_BYTES;
    let ghost want = frames_of(blob@)->0;
    let mut frames: Vec<Vec<u8>> = Vec::new();
    let mut i: usize = 0;
    assert(frame_views(frames@) =~= want.take(0));
    while i < count
        invariant
            i <= count,
            count * PADDED_MESSAGE_BYTES == blob@.len(),
            count * PADDED_MESSAGE_BYTES <= usize::MAX,
            frames_of(blob@) == Some(want),
            want.len() == count,
            frame_views(frames@) == want.take(i as int),
        decreases count - i,
    {
        assert(i * PADDED_MESSAGE_BYTES + PADDED_MESSAGE_BYTES <= count * PADDED_MESSAGE_BYTES)
            by (nonlinear_arith)
            requires
                i + 1 <= count,
        ;
        let from: usize = i * PADDED_MESSAGE_BYTES;
        let ghost before = frame_views(frames@);
        let frame = slice_to_vec(slice_subrange(blob, from, from + PADDED_MESSAGE_BYTES));
        frames.push(frame);
        proof {
            assert(frame@ == want[i as int]);
            assert(frame_views(frames@) =~= before.push(frame@));
            assert(frame_views(frames@) =~= want.take(i + 1));
        }
        i += 1;
    }
    assert(want.take(i as int) =~= want);
    Ok(frames)
}

/// What the response to a [`read_request`] comes to: the messages addressed to the holder of
/// `secret`.
pub open spec fn read_outcome(
    answer: Result<Option<Seq<u8>>, DirectoryResponseError>,
    secret: Seq<u8>,
) -> Result<Seq<(Seq<u8>, Seq<u8>)>, MailboxError> {
    match answer {
        Err(e) => Err(MailboxError::Response(e)),
        Ok(None) => Ok(Seq::empty()),
        Ok(Some(blob)) => match frames_of(blob) {
            None => Err(MailboxError::PartialFrame { len: blob.len() as usize }),
            Some(frames) => Ok(frame_messages(secret, frames)),
        },
    }
}

/// Process the response to a [`read_request`] into the messages addressed to the reader.
///
/// Each frame is HPKE-sealed to one recipient, so the whole mailbox is read and every frame is
/// decrypted with `receiver_keypair`; frames sealed to other recipients don't open and are
/// skipped. Returns an empty `Vec` if the mailbox has no messages yet.
pub fn process_read_response(
    res: &[u8],
    ctx: MailboxCtx,
    receiver_keypair: &HpkeKeyPair,
) -> (r: Result<Vec<DecryptedMessage>, MailboxError>)
    ensures
        match read_outcome(
            get_outcome(directory_answer(ctx.handler(), res@)),
            receiver_keypair.secret@,
        ) {
            Ok(messages) => r is Ok && message_views(r->Ok_0@) == messages,
            Err(e) => r == Err::<Vec<DecryptedMessage>, _>(e),
        },
{
    match process_get_res(res, ctx.into_handler()) {
        Err(e) => Err(MailboxError::Response(e)),
        Ok(answer) => read_mailbox_content(answer, receiver_keypair),
    }
}

/// Reads the messages addressed to the reader off the content of a mailbox, if there is any.
pub fn read_mailbox_content(content: Option<Vec<u8>>, receiver_keypair: &HpkeKeyPair) -> (r: Result<
    Vec<DecryptedMessage>,
    MailboxError,
>)
    ensures
        match read_outcome(
            Ok(
                match content {
                    Some(blob) => Some(blob@),
                    None => None,
                },
            ),
            receiver_keypair.secret@,
        ) {
            Ok(messages) => r is Ok && message_views(r->Ok_0@) == messages,
            Err(e) => r == Err::<Vec<DecryptedMessage>, _>(e),
        },
{
    let blob = match content {
        Some(blob) => blob,
        None => {
            let none: Vec<DecryptedMessage> = Vec::new();
            assert(message_views(none@) =~= Seq::empty());
            return Ok(none);
        },
    };
    let frames = split_frames(&blob)?;
    Ok(decrypt_frames(&frames, receiver_keypair))
}

/// The frames of a payload, one after the other, are the payload.
pub proof fn law_frames_make_up_the_payload(blob: Seq<u8>)
    requires
        frames_of(blob) is Some,
    ensures
        frames_of(blob)->0.flatten() == blob,
        forall|i: int|
            0 <= i < frames_of(blob)->0.len() ==> (#[trigger] frames_of(blob)->0[i]).len()
                == PADDED_MESSAGE_BYTES,
    decreases blob.len(),
{
    let size = PADDED_MESSAGE_BYTES as nat;
    let frames = frames_of(blob)->0;
    assert forall|i: int| 0 <= i < frames.len() implies (#[trigger] frames[i]).len() == size by {
        assert(i * size + size <= blob.len()) by (nonlinear_arith)
            requires
                0 <= i < blob.len() / size,
                blob.len() % size == 0,
                size == 7168,
        ;
    }
    if blob.len() == 0 {
        assert(frames =~= Seq::<Seq<u8>>::empty());
        assert(frames.flatten() =~= blob);
    } else {
        assert(blob.len() >= size);
        let rest = blob.skip(size as int);
        law_frames_make_up_the_payload(rest);
        assert(frames.drop_first() =~= frames_of(rest)->0) by {
            assert forall|i: int| 0 <= i < frames_of(rest)->0.len() implies frames.drop_first()[i]
                == #[trigger] frames_of(rest)->0[i] by {
                assert((i + 1) * size == i * size + size) by (nonlinear_arith);
                assert(frames.drop_first()[i] =~= frames_of(rest)->0[i]);
            }
        }
        assert(frames[0] =~= blob.take(size as int));
        assert(frames.flatten() == frames[0] + frames.drop_first().flatten());
        assert(frames[0] + rest =~= blob);
    }
}

/// What is appended to a mailbox comes after what was there.
pub proof fn law_appended_frame_comes_last(blob: Seq<u8>, frame: Seq<u8>)
    requires
        frames_of(blob) is Some,
        frame.len() == PADDED_MESSAGE_BYTES,
    ensures
        frames_of(blob + frame) == Some(frames_of(blob)->0.push(frame)),
{
    let size = PADDED_MESSAGE_BYTES as nat;
    let n = blob.len() / size;
    let whole = blob + frame;
    assert(whole.len() / size == n + 1);
    assert forall|i: int| 0 <= i < n + 1 implies #[trigger] frames_of(whole)->0[i] == frames_of(
        blob,
    )->0.push(frame)[i] by {
        if i < n {
            assert(i * size + size <= blob.len()) by (nonlinear_arith)
                requires
                    0 <= i < n,
                    n == blob.len() / size,
                    blob.len() % size == 0,
                    size == 7168,
            ;
            assert(frames_of(whole)->0[i] =~= frames_of(blob)->0[i]);
        } else {
            assert(i * size == blob.len()) by (nonlinear_arith)
                requires
                    i == n,
                    n == blob.len() / size,
                    blob.len() % size == 0,
                    size == 7168,
            ;
            assert(frames_of(whole)->0[i] =~= frame);
        }
    }
    assert(frames_of(whole)->0 =~= frames_of(blob)->0.push(frame));
}

/// A message that was sealed for a reader is what the reader reads, without the zero bytes at its
/// end, together with the sender's reply key. Nothing but those zero bytes is missing: as many of
/// them put back give the message that was sealed. A message that does not end in a zero byte is
/// read as it was.
pub proof fn law_sealed_message_is_read(
    frame: Seq<u8>,
    message: Seq<u8>,
    reply_key: HpkePublicKey,
    receiver: HpkeKeyPair,
)
    requires
        carries(frame, message, reply_key, receiver.public),
        receiver.matched(),
    ensures
        frame_message(receiver.secret@, frame) == Some(
            (without_trailing_zeros(message), reply_key@),
        ),
        without_trailing_zeros(message) + zeros(
            (message.len() - without_trailing_zeros(message).len()) as nat,
        ) == message,
        message.len() == 0 || message.last() != 0 ==> without_trailing_zeros(message) == message,
{
    lemma_padding_undoes_trim(message);
    assert(hpke_public_of(receiver.secret@) == receiver.public@);
    lemma_trim_undoes_padding(message, (PADDED_PLAINTEXT_A_LENGTH - message.len()) as nat);
}

/// A frame that does not open for the reader changes nothing of what is read.
pub proof fn law_unopened_frame_is_skipped(secret: Seq<u8>, frames: Seq<Seq<u8>>, frame: Seq<u8>)
    requires
        message_a_opened(secret, frame) is Err,
    ensures
        frame_messages(secret, frames.push(frame)) == frame_messages(secret, frames),
{
    assert(frames.push(frame).drop_last() =~= frames);
}

/// A frame that opens for the reader adds one message to what is read: the sender's reply key, and
/// what is left of the body without the zero bytes at its end.
pub proof fn law_opened_frame_is_read(
    secret: Seq<u8>,
    frames: Seq<Seq<u8>>,
    frame: Seq<u8>,
    plaintext: Seq<u8>,
    padding: nat,
    reply_key: Seq<u8>,
)
    requires
        message_a_opened(secret, frame) == Ok::<_, HpkeError>(
            (plaintext + zeros(padding), reply_key),
        ),
        plaintext.len() == 0 || plaintext.last() != 0,
    ensures
        frame_messages(secret, frames.push(frame)) == frame_messages(secret, frames).push(
            (plaintext, reply_key),
        ),
{
    assert(frames.push(frame).drop_last() =~= frames);
    lemma_trim_undoes_padding(plaintext, padding);
}

/// Frames are read one by one: what is read of frames in a row is what is read of the first ones,
/// followed by what is read of the others.
pub proof fn law_frames_are_read_in_turn(secret: Seq<u8>, a: Seq<Seq<u8>>, b: Seq<Seq<u8>>)
    ensures
        frame_messages(secret, Seq::empty()) == Seq::<(Seq<u8>, Seq<u8>)>::empty(),
        frame_messages(secret, a + b) == frame_messages(secret, a) + frame_messages(secret, b),
    decreases b.len(),
{
    if b.len() == 0 {
        assert(a + b =~= a);
        assert(frame_messages(secret, a) + frame_messages(secret, b) =~= frame_messages(secret, a));
    } else {
        law_frames_are_read_in_turn(secret, a, b.drop_last());
        assert((a + b).drop_last() =~= a + b.drop_last());
        assert(frame_messages(secret, a + b) =~= frame_messages(secret, a) + frame_messages(
            secret,
            b,
        ));
    }
}

/// A mailbox with nothing in it has no messages; one whose content is not a whole number of frames
/// is refused with its length; any other is read frame by frame. A failure to get the content is
/// handed on.
pub proof fn law_mailbox_is_read(secret: Seq<u8>, blob: Seq<u8>, e: DirectoryResponseError)
    requires
        blob.len() <= usize::MAX,
    ensures
        read_outcome(Ok(None), secret) == Ok::<_, MailboxError>(
            Seq::<(Seq<u8>, Seq<u8>)>::empty(),
        ),
        read_outcome(Err(e), secret) == Err::<Seq<(Seq<u8>, Seq<u8>)>, _>(
            MailboxError::Response(e),
        ),
        blob.len() % 7168 != 0 ==> (read_outcome(Ok(Some(blob)), secret) matches Err(
            MailboxError::PartialFrame { len },
        ) && len == blob.len()),
        blob.len() % 7168 == 0 ==> forall|frames: Seq<Seq<u8>>|
            frames.len() * 7168 == blob.len() && (forall|i: int|
                0 <= i < frames.len() ==> #[trigger] frames[i] == blob.subrange(
                    i * 7168,
                    i * 7168 + 7168,
                )) ==> read_outcome(Ok(Some(blob)), secret) == Ok::<_, MailboxError>(
                #[trigger] frame_messages(secret, frames),
            ),
{
    assert forall|frames: Seq<Seq<u8>>|
        blob.len() % 7168 == 0 && frames.len() * 7168 == blob.len() && (forall|i: int|
            0 <= i < frames.len() ==> #[trigger] frames[i] == blob.subrange(
                i * 7168,
                i * 7168 + 7168,
            )) implies read_outcome(Ok(Some(blob)), secret) == Ok::<_, MailboxError>(
        #[trigger] frame_messages(secret, frames),
    ) by {
        assert(frames_of(blob)->0 =~= frames);
    }
}

/// Reading a mailbox again after an append gives the same messages, and after them the new one
/// where it was sealed for the reader.
pub proof fn law_append_adds_one_message(
    blob: Seq<u8>,
    frame: Seq<u8>,
    message: Seq<u8>,
    reply_key: HpkePublicKey,
    receiver: HpkeKeyPair,
)
    requires
        frames_of(blob) is Some,
        carries(frame, message, reply_key, receiver.public),
        receiver.matched(),
    ensures
        read_outcome(Ok(Some(blob + frame)), receiver.secret@) == Ok::<_, MailboxError>(
            frame_messages(receiver.secret@, frames_of(blob)->0).push(
                (without_trailing_zeros(message), reply_key@),
            ),
        ),
{
    law_appended_frame_comes_last(blob, frame);
    law_sealed_message_is_read(frame, message, reply_key, receiver);
    let frames = frames_of(blob)->0.push(frame);
    assert(frames.drop_last() =~= frames_of(blob)->0);
}

impl From<OhttpEncapsulationError> for MailboxError {
    fn from(value: OhttpEncapsulationError) -> (r: Self) {
        MailboxError::Encapsulation(value)
    }
}

impl FromSpecImpl<OhttpEncapsulationError> for MailboxError {
    open spec fn obeys_from_spec() -> bool {
        true
    }

    open spec fn from_spec(value: OhttpEncapsulationError) -> Self {
        MailboxError::Encapsulation(value)
    }
}

impl From<HpkeError> for MailboxError {
    fn from(value: HpkeError) -> (r: Self) {
        MailboxError::Hpke(value)
    }
}

impl FromSpecImpl<HpkeError> for MailboxError {
    open spec fn obeys_from_spec() -> bool {
        true
    }

    open spec fn from_spec(value: HpkeError) -> Self {
        MailboxError::Hpke(value)
    }
}

impl From<DirectoryResponseError> for MailboxError {
    fn from(value: DirectoryResponseError) -> (r: Self) {
        MailboxError::Response(value)
    }
}

impl FromSpecImpl<DirectoryResponseError> for MailboxError {
    open spec fn obeys_from_spec() -> bool {
        true
    }

    open spec fn from_spec(value: DirectoryResponseError) -> Self {
        MailboxError::Response(value)
    }
}

impl From<UrlParseError> for MailboxError {
    fn from(value: UrlParseError) -> (r: Self) {
        MailboxError::ParseUrl(value)
    }
}

impl FromSpecImpl<UrlParseError> for MailboxError {
    open spec fn obeys_from_spec() -> bool {
        true
    }

    open spec fn from_spec(value: UrlParseError) -> Self {
        MailboxError::ParseUrl(value)
    }
}

/// A request to read a mailbox is sent to the relay's gateway for the directory, and the directory
/// opens it to a GET of the mailbox, which stands one segment below the directory.
pub proof fn law_read_request_asks_for_the_mailbox(
    ohttp_keys: OhttpKeys,
    directory: UrlModel,
    ohttp_relay: Seq<char>,
    mailbox: Seq<u8>,
    r: Result<(Request, MailboxCtx), MailboxError>,
)
    requires
        read_request_due(ohttp_keys, directory, ohttp_relay, mailbox, r),
        directory.well_formed(),
    ensures
        r matches Ok((request, ctx)) ==> {
            &&& parse_url(ohttp_relay) matches Ok(relay)
            &&& request.url@ == relay.relay_to(directory).text()
            &&& request.content_type@ == "message/ohttp-req"@
            &&& asks(
                request.body@,
                ctx.handler(),
                ohttp_keys,
                "GET"@,
                directory.join_segment(short_id_text(mailbox)),
                Seq::empty(),
            )
        },
        r is Err ==> parse_url(ohttp_relay) is Err || !is_short_request(
            "GET"@,
            directory.join_segment(short_id_text(mailbox)),
        ),
        r matches Err(e) ==> e is Encapsulation || (e matches MailboxError::IntoUrl(cause)
            && parse_url(ohttp_relay) == Err::<UrlModel, _>(cause)),
{
}

/// A request to append a message is sent to the relay's gateway for the directory, and the directory
/// opens it to a POST to the mailbox, one segment below the directory, of one frame that the receiver,
/// and with it whoever reads the mailbox with the receiver's key, opens to the message and the
/// sender's reply key. A message that does not fit in a frame is refused with its length.
pub proof fn law_append_request_posts_the_message(
    ohttp_keys: OhttpKeys,
    directory: UrlModel,
    ohttp_relay: Seq<char>,
    mailbox: Seq<u8>,
    message: Seq<u8>,
    reply_key: HpkePublicKey,
    receiver_key: HpkePublicKey,
    r: Result<(Request, MailboxCtx), MailboxError>,
)
    requires
        append_request_due(
            ohttp_keys,
            directory,
            ohttp_relay,
            mailbox,
            message,
            reply_key,
            receiver_key,
            r,
        ),
        directory.well_formed(),
        message.len() <= usize::MAX,
    ensures
        message.len() > 7023 <==> r is Err && r->Err_0 is Hpke,
        r matches Err(MailboxError::Hpke(HpkeError::PayloadTooLarge { actual, max })) ==> actual
            == message.len() && max == 7023,
        r matches Err(e) && !(e is Hpke) ==> parse_url(ohttp_relay) is Err || !is_short_request(
            "POST"@,
            directory.join_segment(short_id_text(mailbox)),
        ),
        r matches Ok((request, ctx)) ==> exists|frame: Seq<u8>|
            {
                &&& #[trigger] carries(frame, message, reply_key, receiver_key)
                &&& parse_url(ohttp_relay) matches Ok(relay)
                &&& request.url@ == relay.relay_to(directory).text()
                &&& request.content_type@ == "message/ohttp-req"@
                &&& asks(
                    request.body@,
                    ctx.handler(),
                    ohttp_keys,
                    "POST"@,
                    directory.join_segment(short_id_text(mailbox)),
                    frame,
                )
            },
{
    if r is Ok {
        let request = r->Ok_0.0;
        let ctx = r->Ok_0.1;
        let frame = choose|frame: Seq<u8>|
            {
                &&& #[trigger] carries(frame, message, reply_key, receiver_key)
                &&& sends(
                    request,
                    ctx.handler(),
                    ohttp_relay,
                    directory,
                    ohttp_keys,
                    "POST"@,
                    mailbox_target(directory, mailbox),
                    frame,
                )
            };
        assert(carries(frame, message, reply_key, receiver_key));
    }
}

/// An append is done where the directory answers with status 200, and nowhere else.
pub proof fn law_append_is_acknowledged(status: u16, content: Seq<u8>)
    ensures
        post_outcome(Ok((status, content))) is Ok <==> status == 200,
{
}

/// Messages and frames, one by one.
pub proof fn law_messages_are_what_is_said(messages: Seq<DecryptedMessage>, frames: Seq<Vec<u8>>)
    ensures
        message_views(messages).len() == messages.len(),
        forall|i: int|
            0 <= i < messages.len() ==> (#[trigger] message_views(messages)[i]).0
                == messages[i].plaintext@ && message_views(messages)[i].1 == messages[i].reply_key@,
        frame_views(frames).len() == frames.len(),
        forall|i: int| 0 <= i < frames.len() ==> #[trigger] frame_views(frames)[i] == frames[i]@,
{
}

/// The message of an error that has a cause ends with the message of the cause.
pub proof fn law_message_ends_with_the_cause(e: MailboxError)
    ensures
        match e {
            MailboxError::Encapsulation(cause) => ends_with(e.spec_message(), cause.spec_message()),
            MailboxError::Response(cause) => ends_with(e.spec_message(), cause.spec_message()),
            MailboxError::ParseUrl(cause) => ends_with(e.spec_message(), cause.spec_message()),
            MailboxError::IntoUrl(cause) => ends_with(e.spec_message(), cause.spec_message()),
            MailboxError::Hpke(cause) => ends_with(e.spec_message(), cause.spec_message()),
            _ => true,
        },
{
    match e {
        MailboxError::Encapsulation(cause) => lemma_ends_with(
            "OHTTP encapsulation error: "@,
            cause.spec_message(),
        ),
        MailboxError::Response(cause) => lemma_ends_with(
            "directory response error: "@,
            cause.spec_message(),
        ),
        MailboxError::ParseUrl(cause) => lemma_ends_with(
            "URL parse error: "@,
            cause.spec_message(),
        ),
        MailboxError::IntoUrl(cause) => lemma_ends_with(
            "invalid relay URL: "@,
            cause.spec_message(),
        ),
        MailboxError::Hpke(cause) => lemma_ends_with("HPKE error: "@, cause.spec_message()),
        _ => {},
    }
}

} // verus!
