//! Append-only broadcast channel over Payjoin Directory mailboxes.
//!
//! Multiple peers sharing a secret can write concurrently. Concurrent writers converge on distinct
//! slots because the directory returns 409 on an occupied mailbox; the writer then advances to the
//! next slot and retries.
//!
//! The channel itself sends nothing: it makes the request for a slot, and reads off the response
//! whether to stop or to go on with the next slot.
use bitcoin_ohttp::ClientResponse;

use vstd::prelude::*;

use crate::bech32::bech32_encoded;
use crate::bytes::{
    append_bytes, lemma_same_parts, lemma_u64_le_injective, lemma_u64_le_is_low_first, u64_le, u64_to_le,
};
use crate::directory::{sha256_digest, short_id_of, short_id_text, ShortId};
use crate::ohttp::{
    asks, directory_answer, encapsulation_error, is_short_request, ohttp_encapsulate,
    process_ohttp_res, DirectoryAnswer, DirectoryResponseError, OhttpEncapsulationError, OhttpKeys,
    Request,
};
use crate::text::{concat, decimal, decimal_string, ends_with, lemma_ends_with};
use crate::url::{law_longer_text_is_read, parse_url, UrlModel, UrlParseError};

verus! {

/// The bytes of `v0-PayjoinDirectoryEntry`.
pub open spec fn entry_tag() -> Seq<u8> {
    seq![
        118u8, 48, 45, 80, 97, 121, 106, 111, 105, 110, 68, 105, 114, 101, 99, 116, 111, 114, 121,
        69, 110, 116, 114, 121,
    ]
}

/// The mailbox id of a slot: a hash of the tag, the shared secret and the index.
pub open spec fn slot_id(shared_secret: Seq<u8>, index: u64) -> Seq<u8> {
    short_id_of(entry_tag() + shared_secret + u64_le(index))
}

/// What is hashed for a slot, byte by byte: the tag `v0-PayjoinDirectoryEntry`, the shared secret, and
/// the eight bytes of the index, the lowest first.
pub proof fn law_slot_id_hashes_the_index(shared_secret: Seq<u8>, index: u64)
    ensures
        slot_id(shared_secret, index) == sha256_digest(
            seq![
                118u8, 48, 45, 80, 97, 121, 106, 111, 105, 110, 68, 105, 114, 101, 99, 116, 111,
                114, 121, 69, 110, 116, 114, 121,
            ] + shared_secret + seq![
                (index % 0x100) as u8,
                (index / 0x100 % 0x100) as u8,
                (index / 0x1_0000 % 0x100) as u8,
                (index / 0x100_0000 % 0x100) as u8,
                (index / 0x1_0000_0000 % 0x100) as u8,
                (index / 0x100_0000_0000 % 0x100) as u8,
                (index / 0x1_0000_0000_0000 % 0x100) as u8,
                (index / 0x100_0000_0000_0000) as u8,
            ],
        ).take(8),
{
    lemma_u64_le_is_low_first(index);
}

/// The bytes that are hashed for a slot.
pub open spec fn slot_input(shared_secret: Seq<u8>, index: u64) -> Seq<u8> {
    entry_tag() + shared_secret + u64_le(index)
}

/// Different slots have different bytes hashed for them, whatever the secret of the channel; and so
/// have channels with different secrets.
pub proof fn law_slots_are_told_apart(
    secret: Seq<u8>,
    index: u64,
    other_secret: Seq<u8>,
    other_index: u64,
)
    requires
        secret.len() == other_secret.len(),
        slot_input(secret, index) == slot_input(other_secret, other_index),
    ensures
        index == other_index,
        secret == other_secret,
        slot_id(secret, index) == sha256_digest(slot_input(secret, index)).take(8),
{
    lemma_same_parts(entry_tag(), secret, u64_le(index), other_secret, u64_le(other_index));
    lemma_u64_le_injective(index, other_index);
}

/// The mailbox id of a slot.
pub fn generate_short_id(shared_secret: &[u8], index: u64) -> (r: ShortId)
    ensures
        r@ == slot_id(shared_secret@, index),
        r@ == sha256_digest(
            seq![
                118u8, 48, 45, 80, 97, 121, 106, 111, 105, 110, 68, 105, 114, 101, 99, 116, 111,
                114, 121, 69, 110, 116, 114, 121,
            ] + shared_secret@ + seq![
                (index % 0x100) as u8,
                (index / 0x100 % 0x100) as u8,
                (index / 0x1_0000 % 0x100) as u8,
                (index / 0x100_0000 % 0x100) as u8,
                (index / 0x1_0000_0000 % 0x100) as u8,
                (index / 0x100_0000_0000 % 0x100) as u8,
                (index / 0x1_0000_0000_0000 % 0x100) as u8,
                (index / 0x100_0000_0000_0000) as u8,
            ],
        ).take(8),
{
    proof {
        law_slot_id_hashes_the_index(shared_secret@, index);
    }
    let mut input: Vec<u8> = Vec::new();
    append_bytes(
        &mut input,
        &[
            118u8, 48, 45, 80, 97, 121, 106, 111, 105, 110, 68, 105, 114, 101, 99, 116, 111, 114,
            121, 69, 110, 116, 114, 121,
        ],
    );
    assert(input@ =~= entry_tag());
    append_bytes(&mut input, shared_secret);
    append_bytes(&mut input, &u64_to_le(index));
    ShortId::of_bytes(&input)
}

/// The reason phrase of an HTTP status, where there is a standard one.
pub uninterp spec fn http_reason(status: u16) -> Option<Seq<char>>;

/// `http::StatusCode::from_u16` and `canonical_reason`: the reason phrase, named `http_reason`.
#[verifier::external_body]
fn canonical_reason(status: u16) -> (r: Option<String>)
    ensures
        match http_reason(status) {
            Some(reason) => r matches Some(s) && s@ == reason,
            None => r is None,
        },
{
    http::StatusCode::from_u16(status).ok()?.canonical_reason().map(|s| s.to_owned())
}

/// An HTTP status as text: the code and the reason phrase.
pub open spec fn status_line(status: u16, reason: Option<Seq<char>>) -> Seq<char> {
    decimal(status as nat) + " "@ + match reason {
        Some(text) => text,
        None => "<unknown status code>"@,
    }
}

/// An HTTP status as text: the code and the reason phrase.
pub fn status_text(status: u16, reason: Option<String>) -> (r: String)
    ensures
        r@ == status_line(
            status,
            match reason {
                Some(text) => Some(text@),
                None => None,
            },
        ),
{
    let code = concat(&decimal_string(status as u64), " ");
    match reason {
        Some(text) => concat(&code, &text),
        None => concat(&code, "<unknown status code>"),
    }
}

/// Why a slot could not be written or read.
#[derive(Debug, Clone, Copy, PartialEq, Eq)]
pub enum LinkedMailboxError {
    Encapsulation(OhttpEncapsulationError),
    /// The relay's response is not of the fixed size.
    ResponseSize,
    Decapsulation(OhttpEncapsulationError),
    UnexpectedWriteStatus(u16),
    UnexpectedReadStatus(u16),
}

impl LinkedMailboxError {
    /// The message shown for this error.
    pub open spec fn spec_message(self) -> Seq<char> {
        match self {
            LinkedMailboxError::Encapsulation(e) => "OHTTP encapsulation error: "@
                + e.spec_message(),
            LinkedMailboxError::ResponseSize => "unexpected relay response size"@,
            LinkedMailboxError::Decapsulation(e) => "OHTTP decapsulation error: "@
                + e.spec_message(),
            LinkedMailboxError::UnexpectedWriteStatus(status) => "unexpected write status: "@
                + status_line(status, http_reason(status)),
            LinkedMailboxError::UnexpectedReadStatus(status) => "unexpected directory status: "@
                + status_line(status, http_reason(status)),
        }
    }

    /// The message shown for this error.
    pub fn message(&self) -> (r: String)
        ensures
            r@ == self.spec_message(),
    {
        match self {
            Self::Encapsulation(e) => concat("OHTTP encapsulation error: ", &e.message()),
            Self::ResponseSize => "unexpected relay response size".to_owned(),
            Self::Decapsulation(e) => concat("OHTTP decapsulation error: ", &e.message()),
            Self::UnexpectedWriteStatus(status) => concat(
                "unexpected write status: ",
                &status_text(*status, canonical_reason(*status)),
            ),
            Self::UnexpectedReadStatus(status) => concat(
                "unexpected directory status: ",
                &status_text(*status, canonical_reason(*status)),
            ),
        }
    }
}

/// What follows an attempt to write a slot.
#[derive(Debug, Clone, Copy, PartialEq, Eq)]
pub enum WriteStep {
    /// The message stands in this slot.
    Written(u64),
    /// The slot is occupied; the next to try.
    TryNext(u64),
}

/// What follows an attempt to read a slot.
#[derive(Debug, PartialEq, Eq)]
pub enum ReadStep {
    /// The message in the slot, and the next slot to read.
    Message(Vec<u8>, u64),
    /// The slot is empty: there are no more messages.
    End,
}

/// What follows an attempt to write the slot `index`, by the status of the answer.
pub open spec fn write_step_due(index: u64, status: u16) -> Result<WriteStep, LinkedMailboxError> {
    if status == 200 {
        Ok(WriteStep::Written(index))
    } else if status == 409 {
        Ok(WriteStep::TryNext((index + 1) as u64))
    } else {
        Err(LinkedMailboxError::UnexpectedWriteStatus(status))
    }
}

/// What follows an attempt to write the slot `index`, by the status of the answer.
pub fn write_step(index: u64, status: u16) -> (r: Result<WriteStep, LinkedMailboxError>)
    requires
        index < u64::MAX,
    ensures
        r == write_step_due(index, status),
{
    match status {
        200 => Ok(WriteStep::Written(index)),
        409 => Ok(WriteStep::TryNext(index + 1)),
        status => Err(LinkedMailboxError::UnexpectedWriteStatus(status)),
    }
}

/// What follows an attempt to read a slot, by the answer: the message, or nothing more.
pub open spec fn read_slot(answer: (u16, Seq<u8>)) -> Result<Option<Seq<u8>>, LinkedMailboxError> {
    if answer.0 == 200 {
        Ok(Some(answer.1))
    } else if answer.0 == 202 {
        Ok(None)
    } else {
        Err(LinkedMailboxError::UnexpectedReadStatus(answer.0))
    }
}

/// Whether `r` is what follows an attempt to read the slot `index`.
pub open spec fn read_step_due(
    index: u64,
    answer: (u16, Seq<u8>),
    r: Result<ReadStep, LinkedMailboxError>,
) -> bool {
    match read_slot(answer) {
        Ok(Some(message)) => r matches Ok(ReadStep::Message(m, next)) && m@ == message && next
            == index + 1,
        Ok(None) => r matches Ok(ReadStep::End),
        Err(e) => r matches Err(e2) && e2 == e,
    }
}

/// What follows an attempt to read the slot `index`, by the answer.
pub fn read_step(index: u64, answer: DirectoryAnswer) -> (r: Result<ReadStep, LinkedMailboxError>)
    requires
        index < u64::MAX,
    ensures
        read_step_due(index, (answer.status, answer.body@), r),
{
    match answer.status {
        200 => Ok(ReadStep::Message(answer.body, index + 1)),
        202 => Ok(ReadStep::End),
        status => Err(LinkedMailboxError::UnexpectedReadStatus(status)),
    }
}

/// The answer in a response, with the errors of this channel.
pub open spec fn slot_answer(ctx: ClientResponse, response: Seq<u8>) -> Result<
    (u16, Seq<u8>),
    LinkedMailboxError,
> {
    match directory_answer(ctx, response) {
        Ok(answer) => Ok(answer),
        Err(DirectoryResponseError::OhttpDecapsulation(e)) => Err(
            LinkedMailboxError::Decapsulation(e),
        ),
        Err(_) => Err(LinkedMailboxError::ResponseSize),
    }
}

/// The answer in a response, with the errors of this channel.
fn open_answer(response: &[u8], ctx: ClientResponse) -> (r: Result<
    DirectoryAnswer,
    LinkedMailboxError,
>)
    ensures
        match slot_answer(ctx, response@) {
            Ok((status, content)) => r matches Ok(answer) && answer.status == status
                && answer.body@ == content,
            Err(e) => r matches Err(e2) && e2 == e,
        },
{
    match process_ohttp_res(response, ctx) {
        Ok(answer) => Ok(answer),
        Err(DirectoryResponseError::OhttpDecapsulation(e)) => Err(
            LinkedMailboxError::Decapsulation(e),
        ),
        Err(_) => Err(LinkedMailboxError::ResponseSize),
    }
}

/// A broadcast channel over a chain of Payjoin Directory mailboxes.
///
/// `short_id(i) = H("v0-PayjoinDirectoryEntry" || shared_secret || i)`. Writing walks forward on 409
/// so concurrent writers converge on distinct slots. Reading polls each slot in order and stops
/// when the directory has nothing for one.
#[derive(Debug, PartialEq, Eq)]
pub struct DirectoryLinkedMailbox {
    /// Full relay gateway URL, e.g. `http://relay/{directory_url}`.
    pub gateway_url: String,
    /// Base URL of the directory, e.g. `https://payjo.in`.
    pub directory_url: String,
    pub ohttp_keys: OhttpKeys,
    pub shared_secret: [u8; 32],
    /// The first slot to try to write.
    pub next_write_index: u64,
}

/// Whether a slot is asked for with the request that it calls for. The slot of a directory that is
/// a URL can be named.
pub open spec fn slot_request_due(
    mailbox: DirectoryLinkedMailbox,
    method: Seq<char>,
    index: u64,
    content: Seq<u8>,
    r: Result<(Request, ClientResponse), LinkedMailboxError>,
) -> bool {
    let target = mailbox.slot_target(index);
    &&& parse_url(mailbox.directory_url@) is Ok ==> target is Ok
    &&& match r {
        Ok((request, ctx)) => {
            &&& request.url@ == mailbox.gateway_url@
            &&& request.content_type@ == "message/ohttp-req"@
            &&& target matches Ok(url) && asks(
                request.body@,
                ctx,
                mailbox.ohttp_keys,
                method,
                url,
                content,
            )
        },
        Err(LinkedMailboxError::Encapsulation(e)) => encapsulation_error(method, target, content)
            == Some(e) && (target matches Ok(url) ==> !is_short_request(method, url)
            || content.len() > 7168),
        Err(_) => false,
    }
}

impl DirectoryLinkedMailbox {
    /// The mailbox of a slot, as the directory is asked for it.
    pub open spec fn slot_target(self, index: u64) -> Result<UrlModel, UrlParseError> {
        parse_url(
            self.directory_url@ + "/"@ + short_id_text(slot_id(self.shared_secret@, index)),
        )
    }

    pub fn new(
        gateway_url: String,
        directory_url: String,
        ohttp_keys: OhttpKeys,
        shared_secret: [u8; 32],
    ) -> (r: Self)
        ensures
            r == (DirectoryLinkedMailbox {
                gateway_url,
                directory_url,
                ohttp_keys,
                shared_secret,
                next_write_index: 0,
            }),
    {
        Self { gateway_url, directory_url, ohttp_keys, shared_secret, next_write_index: 0 }
    }

    fn slot_request(&self, method: &str, index: u64, message: Option<&[u8]>) -> (r: Result<
        (Request, ClientResponse),
        LinkedMailboxError,
    >)
        ensures
            slot_request_due(
                *self,
                method@,
                index,
                match message {
                    Some(m) => m@,
                    None => Seq::empty(),
                },
                r,
            ),
    {
        let short_id = generate_short_id(&self.shared_secret, index);
        let target = concat(&concat(&self.directory_url, "/"), &short_id.as_string());
        proof {
            if parse_url(self.directory_url@) is Ok {
                let tail = "/"@ + short_id_text(short_id@);
                law_longer_text_is_read(self.directory_url@, tail);
                assert(target@ =~= self.directory_url@ + tail);
            }
        }
        match ohttp_encapsulate(&self.ohttp_keys, method, &target, message) {
            Ok((body, ctx)) => Ok(
                (
                    Request {
                        url: self.gateway_url.clone(),
                        content_type: "message/ohttp-req",
                        body,
                    },
                    ctx,
                ),
            ),
            Err(e) => Err(LinkedMailboxError::Encapsulation(e)),
        }
    }

    /// The request that tries to write a message to the slot `index`.
    pub fn write_request(&self, index: u64, message: &[u8]) -> (r: Result<
        (Request, ClientResponse),
        LinkedMailboxError,
    >)
        ensures
            slot_request_due(*self, "POST"@, index, message@, r),
    {
        self.slot_request("POST", index, Some(message))
    }

    /// The request that tries to read the slot `index`.
    pub fn read_request(&self, index: u64) -> (r: Result<
        (Request, ClientResponse),
        LinkedMailboxError,
    >)
        ensures
            slot_request_due(*self, "GET"@, index, Seq::empty(), r),
    {
        self.slot_request("GET", index, None)
    }

    /// Process the response to an attempt to write the slot `index`. Once the message is written,
    /// the slots up to it are not tried again.
    pub fn process_write_response(&mut self, index: u64, response: &[u8], ctx: ClientResponse) -> (r:
        Result<WriteStep, LinkedMailboxError>)
        requires
            index < u64::MAX,
        ensures
            r == (match slot_answer(ctx, response@) {
                Ok((status, _)) => write_step_due(index, status),
                Err(e) => Err(e),
            }),
            *final(self) == (DirectoryLinkedMailbox {
                next_write_index: if r matches Ok(WriteStep::Written(_))
                    && old(self).next_write_index <= index {
                    (index + 1) as u64
                } else {
                    old(self).next_write_index
                },
                ..*old(self)
            }),
    {
        let answer = match open_answer(response, ctx) {
            Ok(answer) => answer,
            Err(e) => return Err(e),
        };
        let step = write_step(index, answer.status);
        if let Ok(WriteStep::Written(_)) = step {
            if self.next_write_index <= index {
                self.next_write_index = index + 1;
            }
        }
        step
    }

    /// Process the response to an attempt to read the slot `index`.
    pub fn process_read_response(&self, index: u64, response: &[u8], ctx: ClientResponse) -> (r:
        Result<ReadStep, LinkedMailboxError>)
        requires
            index < u64::MAX,
        ensures
            match slot_answer(ctx, response@) {
                Ok(answer) => read_step_due(index, answer, r),
                Err(e) => r matches Err(e2) && e2 == e,
            },
    {
        match open_answer(response, ctx) {
            Ok(answer) => read_step(index, answer),
            Err(e) => Err(e),
        }
    }
}

/// How a directory that holds the messages of the first slots answers a write.
pub open spec fn write_status(messages: Seq<Seq<u8>>, index: u64) -> u16 {
    if index < messages.len() {
        409
    } else {
        200
    }
}

/// How a directory that holds the messages of the first slots answers a read.
pub open spec fn read_status(messages: Seq<Seq<u8>>, index: u64) -> (u16, Seq<u8>) {
    if index < messages.len() {
        (200, messages[index as int])
    } else {
        (202, Seq::empty())
    }
}

/// The slot that a writer who starts at `index` ends at.
pub open spec fn written_slot(messages: Seq<Seq<u8>>, index: u64) -> Option<u64>
    decreases u64::MAX - index,
{
    if index == u64::MAX {
        None
    } else {
        match write_step_due(index, write_status(messages, index)) {
            Ok(WriteStep::Written(slot)) => Some(slot),
            Ok(WriteStep::TryNext(next)) => if next == index + 1 {
                written_slot(messages, next)
            } else {
                None
            },
            Err(_) => None,
        }
    }
}

/// The messages that a reader who starts at `index` reads.
pub open spec fn messages_read(messages: Seq<Seq<u8>>, index: u64) -> Seq<Seq<u8>>
    decreases u64::MAX - index,
{
    if index == u64::MAX {
        Seq::empty()
    } else {
        match read_slot(read_status(messages, index)) {
            Ok(Some(message)) => seq![message] + messages_read(messages, (index + 1) as u64),
            _ => Seq::empty(),
        }
    }
}

/// Wherever a writer starts, it walks past the occupied slots and writes the first free one: no
/// message is overwritten, and writers converge on distinct slots.
pub proof fn law_writer_takes_the_first_free_slot(messages: Seq<Seq<u8>>, index: u64)
    requires
        index <= messages.len() < u64::MAX,
    ensures
        written_slot(messages, index) == Some(messages.len() as u64),
    decreases messages.len() - index,
{
    if index < messages.len() {
        law_writer_takes_the_first_free_slot(messages, (index + 1) as u64);
    }
}

/// A reader reads every message, in the order of the slots, and so also the last one written.
pub proof fn law_reader_reads_every_message(messages: Seq<Seq<u8>>, index: u64)
    requires
        index <= messages.len() < u64::MAX,
    ensures
        messages_read(messages, index) == messages.skip(index as int),
    decreases messages.len() - index,
{
    if index < messages.len() {
        law_reader_reads_every_message(messages, (index + 1) as u64);
        assert(messages.skip(index as int) =~= seq![messages[index as int]] + messages.skip(
            index + 1,
        ));
    } else {
        assert(messages.skip(index as int) =~= Seq::empty());
    }
}

/// How a directory answers a write to a mailbox, by what its mailboxes hold.
pub open spec fn mailbox_write_status(held: Map<Seq<u8>, Seq<u8>>, id: Seq<u8>) -> u16 {
    if held.dom().contains(id) {
        409
    } else {
        200
    }
}

/// How a directory answers a read of a mailbox, by what its mailboxes hold.
pub open spec fn mailbox_read_status(held: Map<Seq<u8>, Seq<u8>>, id: Seq<u8>) -> (u16, Seq<u8>) {
    if held.dom().contains(id) {
        (200, held[id])
    } else {
        (202, Seq::empty())
    }
}

/// The slot whose mailbox a writer who starts at `index` writes to, in a directory with such
/// mailboxes.
pub open spec fn slot_taken(held: Map<Seq<u8>, Seq<u8>>, secret: Seq<u8>, index: u64) -> Option<u64>
    decreases u64::MAX - index,
{
    if index == u64::MAX {
        None
    } else {
        match write_step_due(index, mailbox_write_status(held, slot_id(secret, index))) {
            Ok(WriteStep::Written(slot)) => Some(slot),
            Ok(WriteStep::TryNext(next)) => if next == index + 1 {
                slot_taken(held, secret, next)
            } else {
                None
            },
            Err(_) => None,
        }
    }
}

/// The messages that a reader who starts at `index` reads, in a directory with such mailboxes.
pub open spec fn channel_read(
    held: Map<Seq<u8>, Seq<u8>>,
    secret: Seq<u8>,
    index: u64,
) -> Seq<Seq<u8>>
    decreases u64::MAX - index,
{
    if index == u64::MAX {
        Seq::empty()
    } else {
        match read_slot(mailbox_read_status(held, slot_id(secret, index))) {
            Ok(Some(message)) => seq![message] + channel_read(held, secret, (index + 1) as u64),
            _ => Seq::empty(),
        }
    }
}

/// What a directory that held nothing holds once some messages were written to a channel, one after
/// the other, each by a writer who starts at the first slot.
pub open spec fn channel_of(secret: Seq<u8>, messages: Seq<Seq<u8>>) -> Map<Seq<u8>, Seq<u8>>
    decreases messages.len(),
{
    if messages.len() == 0 {
        Map::empty()
    } else {
        let held = channel_of(secret, messages.drop_last());
        match slot_taken(held, secret, 0) {
            Some(slot) => held.insert(slot_id(secret, slot), messages.last()),
            None => held,
        }
    }
}

/// Whether no two of the slots up to `last` have digests that begin with the same eight bytes.
pub open spec fn digests_differ(secret: Seq<u8>, last: nat) -> bool {
    forall|i: u64, j: u64|
        i < j <= last ==> sha256_digest(#[trigger] slot_input(secret, i)).take(8) != sha256_digest(
            #[trigger] slot_input(secret, j),
        ).take(8)
}

/// Whether the mailboxes of the first slots, up to `last`, hold the messages and the others nothing.
pub open spec fn channel_holds(
    held: Map<Seq<u8>, Seq<u8>>,
    secret: Seq<u8>,
    messages: Seq<Seq<u8>>,
    last: nat,
) -> bool {
    forall|i: u64|
        i <= last ==> {
            let id = sha256_digest(#[trigger] slot_input(secret, i)).take(8);
            if i < messages.len() {
                held.dom().contains(id) && held[id] == messages[i as int]
            } else {
                !held.dom().contains(id)
            }
        }
}

/// Wherever a writer starts, it walks past the mailboxes that hold a message and takes the first
/// that holds none, and so the messages that were there stay, and the new one comes after them.
pub proof fn law_writer_takes_a_free_mailbox(
    held: Map<Seq<u8>, Seq<u8>>,
    secret: Seq<u8>,
    messages: Seq<Seq<u8>>,
    last: nat,
    index: u64,
    message: Seq<u8>,
)
    requires
        channel_holds(held, secret, messages, last),
        digests_differ(secret, last),
        index <= messages.len() <= last < u64::MAX,
    ensures
        slot_taken(held, secret, index) matches Some(slot) && {
            let id = sha256_digest(slot_input(secret, slot)).take(8);
            &&& slot == messages.len()
            &&& !held.dom().contains(id)
            &&& channel_holds(held.insert(id, message), secret, messages.push(message), last)
        },
    decreases messages.len() - index,
{
    let id = sha256_digest(slot_input(secret, index)).take(8);
    assert(id == slot_id(secret, index));
    if index < messages.len() {
        law_writer_takes_a_free_mailbox(
            held,
            secret,
            messages,
            last,
            (index + 1) as u64,
            message,
        );
    } else {
        assert forall|i: u64| i <= last implies {
            let other = sha256_digest(#[trigger] slot_input(secret, i)).take(8);
            if i < messages.push(message).len() {
                held.insert(id, message).dom().contains(other) && held.insert(id, message)[other]
                    == messages.push(message)[i as int]
            } else {
                !held.insert(id, message).dom().contains(other)
            }
        } by {
            if i < index {
                assert(sha256_digest(slot_input(secret, i)).take(8) != id);
            } else if i > index {
                assert(id != sha256_digest(slot_input(secret, i)).take(8));
            }
        }
    }
}

/// A reader reads what the mailboxes of the slots hold, in the order of the slots, up to the first
/// that holds nothing.
pub proof fn law_reader_reads_the_mailboxes(
    held: Map<Seq<u8>, Seq<u8>>,
    secret: Seq<u8>,
    messages: Seq<Seq<u8>>,
    last: nat,
    index: u64,
)
    requires
        channel_holds(held, secret, messages, last),
        index <= messages.len() <= last < u64::MAX,
    ensures
        channel_read(held, secret, index) == messages.skip(index as int),
    decreases messages.len() - index,
{
    let id = sha256_digest(slot_input(secret, index)).take(8);
    assert(id == slot_id(secret, index));
    if index < messages.len() {
        law_reader_reads_the_mailboxes(held, secret, messages, last, (index + 1) as u64);
        assert(messages.skip(index as int) =~= seq![messages[index as int]] + messages.skip(
            index + 1,
        ));
    } else {
        assert(messages.skip(index as int) =~= Seq::empty());
    }
}

/// Every message that is written to a channel is read from it, once and in the order of writing,
/// however many there are, as long as no digests of its slots begin alike.
pub proof fn law_channel_delivers_every_message(secret: Seq<u8>, messages: Seq<Seq<u8>>)
    requires
        digests_differ(secret, messages.len()),
        messages.len() < u64::MAX,
    ensures
        channel_read(channel_of(secret, messages), secret, 0) == messages,
{
    lemma_channel_of(secret, messages, messages.len());
    law_reader_reads_the_mailboxes(
        channel_of(secret, messages),
        secret,
        messages,
        messages.len(),
        0,
    );
    assert(messages.skip(0) =~= messages);
}

/// What the mailboxes hold after some messages were written.
proof fn lemma_channel_of(secret: Seq<u8>, messages: Seq<Seq<u8>>, last: nat)
    requires
        digests_differ(secret, last),
        messages.len() <= last < u64::MAX,
    ensures
        channel_holds(channel_of(secret, messages), secret, messages, last),
    decreases messages.len(),
{
    if messages.len() > 0 {
        let earlier = messages.drop_last();
        lemma_channel_of(secret, earlier, last);
        law_writer_takes_a_free_mailbox(
            channel_of(secret, earlier),
            secret,
            earlier,
            last,
            0,
            messages.last(),
        );
        assert(earlier.push(messages.last()) =~= messages);
    }
}

/// An attempt to write a slot is answered with 200 where the message is written, and with 409 where
/// the next slot is to be tried; every other status is an error that names it.
pub proof fn law_write_status_decides(index: u64, status: u16)
    requires
        index < u64::MAX,
    ensures
        status == 200 <==> write_step_due(index, status) is Ok && write_step_due(
            index,
            status,
        )->Ok_0 is Written,
        status == 409 <==> write_step_due(index, status) is Ok && write_step_due(
            index,
            status,
        )->Ok_0 is TryNext,
        write_step_due(index, status) matches Ok(WriteStep::Written(slot)) ==> slot == index,
        write_step_due(index, status) matches Ok(WriteStep::TryNext(next)) ==> next == index + 1,
        write_step_due(index, status) matches Err(e) ==> e
            == LinkedMailboxError::UnexpectedWriteStatus(status),
{
}

/// An attempt to read a slot is answered with 200 and the message, or with 202 where there is none;
/// every other status is an error that names it.
pub proof fn law_read_status_decides(status: u16, content: Seq<u8>)
    ensures
        status == 200 ==> read_slot((status, content)) == Ok::<_, LinkedMailboxError>(
            Some(content),
        ),
        status == 202 <==> read_slot((status, content)) == Ok::<_, LinkedMailboxError>(
            None::<Seq<u8>>,
        ),
        status != 200 && status != 202 ==> read_slot((status, content)) == Err::<
            Option<Seq<u8>>,
            _,
        >(LinkedMailboxError::UnexpectedReadStatus(status)),
{
}

/// A slot is asked for at the directory's URL followed by the text of its mailbox id: the first eight
/// bytes of the digest of what is hashed for it. It does not matter what the writer wrote before, nor
/// through which gateway it asks.
pub proof fn law_slot_is_asked_for_by_its_id(channel: DirectoryLinkedMailbox, index: u64)
    ensures
        channel.slot_target(index) == parse_url(
            channel.directory_url@ + "/"@ + bech32_encoded(
                "ID"@,
                sha256_digest(slot_input(channel.shared_secret@, index)).take(8),
            ),
        ),
{
}

/// After a message the next slot is read, and none is left out; after an empty slot none is.
pub proof fn law_reading_goes_on_slot_by_slot(
    index: u64,
    status: u16,
    content: Seq<u8>,
    r: Result<ReadStep, LinkedMailboxError>,
)
    requires
        read_step_due(index, (status, content), r),
    ensures
        status == 200 ==> (r matches Ok(ReadStep::Message(message, next)) && message@ == content
            && next == index + 1),
        status == 202 ==> r matches Ok(ReadStep::End),
        status != 200 && status != 202 ==> (r matches Err(e) && e
            == LinkedMailboxError::UnexpectedReadStatus(status)),
{
}

/// A slot is asked for through the gateway, with the channel's OHTTP keys: with the method, the URL of the
/// slot's mailbox and the content. It is refused only where the directory is no URL, or where the
/// request does not fit.
pub proof fn law_slot_request_asks_for_the_slot(
    channel: DirectoryLinkedMailbox,
    method: Seq<char>,
    index: u64,
    content: Seq<u8>,
    r: Result<(Request, ClientResponse), LinkedMailboxError>,
)
    requires
        slot_request_due(channel, method, index, content, r),
    ensures
        r matches Ok((request, ctx)) ==> {
            &&& request.url@ == channel.gateway_url@
            &&& request.content_type@ == "message/ohttp-req"@
            &&& parse_url(
                channel.directory_url@ + "/"@ + bech32_encoded(
                    "ID"@,
                    sha256_digest(slot_input(channel.shared_secret@, index)).take(8),
                ),
            ) matches Ok(url)
            &&& asks(request.body@, ctx, channel.ohttp_keys, method, url, content)
        },
        r matches Err(e) ==> e is Encapsulation && (parse_url(channel.directory_url@) is Err
            || content.len() > 7168 || (channel.slot_target(index) matches Ok(url)
            && !is_short_request(method, url))),
{
}

/// What a response says to the channel: the directory's answer, or that it has the wrong size, or that it
/// does not open.
pub proof fn law_response_to_the_channel(ctx: ClientResponse, response: Seq<u8>)
    ensures
        match directory_answer(ctx, response) {
            Ok(answer) => slot_answer(ctx, response) == Ok::<_, LinkedMailboxError>(answer),
            Err(DirectoryResponseError::InvalidSize(_)) => slot_answer(ctx, response) == Err::<
                (u16, Seq<u8>),
                _,
            >(LinkedMailboxError::ResponseSize),
            Err(DirectoryResponseError::OhttpDecapsulation(e)) => slot_answer(ctx, response)
                == Err::<(u16, Seq<u8>), _>(LinkedMailboxError::Decapsulation(e)),
            Err(DirectoryResponseError::UnexpectedStatusCode(_)) => true,
        },
{
}

/// The message of an error that has a cause ends with the message of the cause, and that of an
/// unexpected status with the status.
pub proof fn law_message_ends_with_the_cause(e: LinkedMailboxError)
    ensures
        match e {
            LinkedMailboxError::Encapsulation(cause) => ends_with(
                e.spec_message(),
                cause.spec_message(),
            ),
            LinkedMailboxError::Decapsulation(cause) => ends_with(
                e.spec_message(),
                cause.spec_message(),
            ),
            LinkedMailboxError::UnexpectedWriteStatus(status) => ends_with(
                e.spec_message(),
                status_line(status, http_reason(status)),
            ),
            LinkedMailboxError::UnexpectedReadStatus(status) => ends_with(
                e.spec_message(),
                status_line(status, http_reason(status)),
            ),
            _ => true,
        },
{
    match e {
        LinkedMailboxError::Encapsulation(cause) => lemma_ends_with(
            "OHTTP encapsulation error: "@,
            cause.spec_message(),
        ),
        LinkedMailboxError::Decapsulation(cause) => lemma_ends_with(
            "OHTTP decapsulation error: "@,
            cause.spec_message(),
        ),
        LinkedMailboxError::UnexpectedWriteStatus(status) => lemma_ends_with(
            "unexpected write status: "@,
            status_line(status, http_reason(status)),
        ),
        LinkedMailboxError::UnexpectedReadStatus(status) => lemma_ends_with(
            "unexpected directory status: "@,
            status_line(status, http_reason(status)),
        ),
        _ => {},
    }
}

/// A status as text starts with its code in decimal digits, and ends with the reason phrase where
/// there is one.
pub proof fn law_status_line_says_code_and_reason(status: u16, reason: Option<Seq<char>>)
    ensures
        status_line(status, reason).take(decimal(status as nat).len() as int) == decimal(
            status as nat,
        ),
        status_line(status, reason)[decimal(status as nat).len() as int] == ' ',
        reason matches Some(text) ==> status_line(status, reason).skip(
            decimal(status as nat).len() as int + 1,
        ) == text,
        reason is None ==> status_line(status, reason).skip(decimal(status as nat).len() as int + 1)
            == "<unknown status code>"@,
{
    reveal_strlit(" ");
    let line = status_line(status, reason);
    let n = decimal(status as nat).len() as int;
    let text = match reason {
        Some(text) => text,
        None => "<unknown status code>"@,
    };
    assert(line.take(n) =~= decimal(status as nat));
    assert(line.skip(n + 1) =~= text);
}

} // verus!
