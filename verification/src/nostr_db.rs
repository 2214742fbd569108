//! A Payjoin Directory backend that keeps payloads as events of a nostr relay.
//!
//! A payload is the content, in hexadecimal notation, of a signed text note with the mailbox in its
//! `h` tag. The relay answers a request for a mailbox with one event per line.
use nostr::event::{Event, EventBuilder, Kind, Tag};
use nostr::filter::{Filter, SingleLetterTag};
use nostr::key::{Keys, SecretKey};
use nostr::message::{ClientMessage, SubscriptionId};
use nostr::util::JsonUtil;

use vstd::prelude::*;
use vstd::utf8::encode_utf8;

use crate::directory::{short_id_text, ShortId};
use crate::hex::{hex_decode, hex_encode, hex_read, hex_text, law_hex_round_trips, HexError};
use crate::text::{
    chars_of, concat, ends_with, is_white_space, is_white_space_char, lemma_ends_with, string_of,
};
use crate::url::{first_stop, lemma_first_stop};

verus! {

/// The number of the text notes among the kinds of events.
pub const TEXT_NOTE: u16 = 1;

/// The name of the tag that holds a mailbox.
pub const MAILBOX_TAG: char = 'h';

/// How many seconds to wait before asking a relay again.
pub const POLL_SECONDS: u64 = 1;

/// What an event says: who signed it, of what kind it is, its tags and its content.
pub ghost struct EventModel {
    pub author: Seq<u8>,
    pub kind: u16,
    pub tags: Seq<Seq<Seq<char>>>,
    pub content: Seq<char>,
}

/// The public key of a secret key; none where the bytes are no secret key.
pub uninterp spec fn nostr_author(secret: Seq<u8>) -> Option<Seq<u8>>;

/// The event that a line is the JSON text of.
pub uninterp spec fn nostr_event(line: Seq<char>) -> Option<EventModel>;

/// The message that hands an event, given as JSON text, to a relay.
pub uninterp spec fn nostr_event_message(event: Seq<char>) -> Seq<char>;

/// The message that asks a relay for the events of a kind with a value in the tag with a letter.
pub uninterp spec fn nostr_req_message(
    subscription: Seq<char>,
    kind: u16,
    letter: char,
    value: Seq<char>,
) -> Seq<char>;

/// Whether nothing but white space stands in a line.
pub open spec fn is_blank(line: Seq<char>) -> bool {
    forall|i: int| 0 <= i < line.len() ==> is_white_space(#[trigger] line[i])
}

/// Whether a text is one line that is not blank.
pub open spec fn is_line(text: Seq<char>) -> bool {
    !is_blank(text) && forall|i: int| 0 <= i < text.len() ==> #[trigger] text[i] != '\n'
}

/// The event with one tag, whose name is a letter.
pub open spec fn tagged(
    author: Seq<u8>,
    kind: u16,
    letter: char,
    value: Seq<char>,
    content: Seq<char>,
) -> EventModel {
    EventModel { author, kind, tags: seq![seq![seq![letter], value]], content }
}

/// The text note that stands for some content in a mailbox.
pub open spec fn note(author: Seq<u8>, mailbox: Seq<char>, content: Seq<char>) -> EventModel {
    tagged(author, TEXT_NOTE, MAILBOX_TAG, mailbox, content)
}

/// Whether an event is one of those asked for: it is of the kind, and has the value in a tag with
/// the letter.
pub open spec fn is_asked_for(
    event: EventModel,
    kind: u16,
    letter: char,
    value: Seq<char>,
) -> bool {
    event.kind == kind && exists|i: int|
        0 <= i < event.tags.len() && (#[trigger] event.tags[i]).len() >= 2 && event.tags[i][0]
            == seq![letter] && event.tags[i][1] == value
}

/// `Keys::generate` and `SecretKey::to_secret_bytes`: a new secret key, drawn by chance. It has a
/// public key.
#[verifier::external_body]
fn generate_secret() -> (r: [u8; 32])
    ensures
        nostr_author(r@) is Some,
{
    Keys::generate().secret_key().to_secret_bytes()
}

/// `Event::from_json`: the content of the event that the line is the JSON text of, named
/// `nostr_event`; none where it is no event.
#[verifier::external_body]
fn event_content(line: &str) -> (r: Option<String>)
    ensures
        match nostr_event(line@) {
            Some(event) => r matches Some(s) && s@ == event.content,
            None => r is None,
        },
{
    Event::from_json(line).ok().map(|event| event.content)
}

/// Whether `r` is the JSON text, on one line, of the signed event.
pub open spec fn signed(r: Result<String, String>, event: EventModel) -> bool {
    r matches Ok(text) && nostr_event(text@) == Some(event) && is_line(text@)
}

/// `EventBuilder::new`, `tag`, `build`, `UnsignedEvent::sign_with_keys` and `as_json`: the JSON text,
/// on one line, of an event that is read back with the author, the kind, the tag and the content
/// given here. A tag `p`, which is dropped where it names the author, is left out. Signing succeeds:
/// the id that it checks was computed from the same event. The time and the signature, which depend
/// on the clock and on chance, are left unsaid.
#[verifier::external_body]
fn sign_event(secret: &[u8; 32], kind: u16, letter: char, value: &str, content: &str) -> (r: Result<
    String,
    String,
>)
    requires
        nostr_author(secret@) is Some,
        'a' <= letter <= 'z',
        letter != 'p',
    ensures
        signed(r, tagged(nostr_author(secret@)->0, kind, letter, value@, content@)),
{
    let keys = Keys::new(SecretKey::from_slice(secret).expect("a secret key"));
    let tag = Tag::parse([letter.to_string(), value.to_owned()]).expect("a tag with a name");
    let event = EventBuilder::new(Kind::from(kind), content).tag(tag).build(keys.public_key());
    event.sign_with_keys(&keys).map(|event| event.as_json()).map_err(|e| e.to_string())
}

/// `ClientMessage::Event` and `as_json`: the message that hands the event to a relay, named
/// `nostr_event_message`.
#[verifier::external_body]
fn event_message(event: &str) -> (r: String)
    requires
        nostr_event(event@) is Some,
    ensures
        r@ == nostr_event_message(event@),
{
    let event = Event::from_json(event).expect("an event");
    ClientMessage::Event(std::borrow::Cow::Borrowed(&event)).as_json()
}

/// `SubscriptionId::generate`: a new subscription id. Nothing is claimed of it.
#[verifier::external_body]
fn generate_subscription() -> String {
    SubscriptionId::generate().to_string()
}

/// `Filter::kind`, `custom_tag` and `ClientMessage::req` with `as_json`: the message that asks a relay
/// for the events of the kind that have the value in the tag with the letter, named
/// `nostr_req_message`.
#[verifier::external_body]
fn req_message(subscription: &str, kind: u16, letter: char, value: &str) -> (r: String)
    requires
        'a' <= letter <= 'z',
    ensures
        r@ == nostr_req_message(subscription@, kind, letter, value@),
{
    let tag = SingleLetterTag::from_char(letter).expect("a letter");
    let filter = Filter::new().kind(Kind::from(kind)).custom_tag(tag, value);
    ClientMessage::req(SubscriptionId::new(subscription), filter).as_json()
}

/// Whether nothing but white space stands between two positions.
fn blank_between(v: &Vec<char>, from: usize, to: usize) -> (r: bool)
    requires
        from <= to <= v@.len(),
    ensures
        r == is_blank(v@.subrange(from as int, to as int)),
{
    let ghost line = v@.subrange(from as int, to as int);
    let mut i: usize = from;
    while i < to
        invariant
            from <= i <= to <= v@.len(),
            line == v@.subrange(from as int, to as int),
            forall|j: int| 0 <= j < i - from ==> is_white_space(#[trigger] line[j]),
        decreases to - i,
    {
        assert(line[i - from] == v@[i as int]);
        if !is_white_space_char(v[i]) {
            assert(!is_white_space(line[i - from]));
            return false;
        }
        i += 1;
    }
    true
}

/// The content of the first event among the lines of `s` from `from` on. Blank lines and lines that
/// are no events are passed over.
pub open spec fn first_content(s: Seq<char>, from: int) -> Option<Seq<char>>
    decreases s.len() + 1 - from,
{
    let end = first_stop(s, from, |c: char| c == '\n');
    if !(0 <= from <= end <= s.len()) {
        None
    } else {
        let line = s.subrange(from, end);
        if !is_blank(line) && nostr_event(line) is Some {
            Some(nostr_event(line)->0.content)
        } else {
            first_content(s, end + 1)
        }
    }
}

/// The content of the first event in what a relay answered.
pub fn first_event(body: &str) -> (r: Option<String>)
    ensures
        match first_content(body@, 0) {
            Some(content) => r matches Some(s) && s@ == content,
            None => r is None,
        },
{
    let v = chars_of(body);
    let n: usize = v.len();
    let mut from: usize = 0;
    loop
        invariant
            v@ == body@,
            n == v@.len(),
            from <= n,
            first_content(body@, 0) == first_content(body@, from as int),
        decreases n - from,
    {
        let mut end: usize = from;
        while end < n && v[end] != '\n'
            invariant
                from <= end <= n,
                n == v@.len(),
                forall|i: int| from <= i < end ==> v@[i] != '\n',
            decreases n - end,
        {
            end += 1;
        }
        proof {
            lemma_first_stop(body@, from as int, |c: char| c == '\n', end as int);
        }
        if !blank_between(&v, from, end) {
            if let Some(content) = event_content(&string_of(&v, from, end)) {
                return Some(content);
            }
        }
        if end == n {
            assert(first_content(body@, n + 1) is None);
            return None;
        }
        from = end + 1;
    }
}

/// Errors of this backend.
#[derive(Debug, PartialEq, Eq)]
pub enum NostrBackendError {
    /// An event could not be made.
    EventError(String),
    /// The content of an event is not hexadecimal.
    HexError(HexError),
    /// The relay could not be reached.
    ClientError(String),
}

impl NostrBackendError {
    /// The message shown for this error.
    pub open spec fn spec_message(self) -> Seq<char> {
        match self {
            NostrBackendError::EventError(e) => "Event error: "@ + e@,
            NostrBackendError::ClientError(e) => "Client error: "@ + e@,
            NostrBackendError::HexError(e) => "Hex error: "@ + e.spec_message(),
        }
    }

    /// The message shown for this error.
    pub fn message(&self) -> (r: String)
        ensures
            r@ == self.spec_message(),
    {
        match self {
            Self::EventError(e) => concat("Event error: ", e),
            Self::ClientError(e) => concat("Client error: ", e),
            Self::HexError(e) => concat("Hex error: ", &e.message()),
        }
    }
}

/// What a relay's answer to a request for a mailbox means: the payload, or nothing yet.
pub open spec fn read_payload(body: Seq<char>) -> Result<Option<Seq<u8>>, HexError> {
    match first_content(body, 0) {
        None => Ok(None),
        Some(content) => match hex_read(encode_utf8(content)) {
            Ok(data) => Ok(Some(data)),
            Err(e) => Err(e),
        },
    }
}

/// What follows a relay's answer.
#[derive(Debug, PartialEq, Eq)]
pub enum PollStep {
    /// The payload is there.
    Payload(Vec<u8>),
    /// There is none yet: ask again after this time.
    Wait { seconds: u64 },
}

/// Whether an event, given as JSON text, is the one that stands for a payload in a mailbox.
pub open spec fn posted(
    event: Seq<char>,
    author: Seq<u8>,
    mailbox: Seq<char>,
    data: Seq<u8>,
) -> bool {
    nostr_event(event) == Some(note(author, mailbox, hex_text(data))) && is_line(event)
}

/// The backend: a key to sign events with, and how long to wait for a payload.
pub struct Db {
    secret: [u8; 32],
    timeout_seconds: u64,
}

impl Clone for Db {
    fn clone(&self) -> (r: Self)
        ensures
            r == *self,
    {
        proof {
            use_type_invariant(self);
        }
        Self { secret: self.secret, timeout_seconds: self.timeout_seconds }
    }
}

impl Db {
    /// The secret is a key.
    #[verifier::type_invariant]
    spec fn has_key(self) -> bool {
        nostr_author(self.secret@) is Some
    }

    /// The public key of those who post with this backend.
    pub closed spec fn author(self) -> Seq<u8> {
        nostr_author(self.secret@)->0
    }

    /// How long to wait for a payload.
    pub closed spec fn spec_timeout_seconds(self) -> u64 {
        self.timeout_seconds
    }

    /// A backend with a new key, that waits for five seconds.
    pub fn new() -> (r: Self)
        ensures
            r.spec_timeout_seconds() == 5,
    {
        Self { secret: generate_secret(), timeout_seconds: 5 }
    }

    /// How long to wait for a payload.
    pub fn timeout_seconds(&self) -> (r: u64)
        ensures
            r == self.spec_timeout_seconds(),
    {
        self.timeout_seconds
    }

    /// The message that hands a payload for a mailbox to a relay: that of a text note by this
    /// backend's author, with the mailbox in its tag and the payload in its content.
    pub fn post_message(&self, mailbox_id: &ShortId, data: &[u8]) -> (r: Result<
        String,
        NostrBackendError,
    >)
        ensures
            r matches Ok(message) && exists|event: Seq<char>|
                posted(event, self.author(), short_id_text(mailbox_id@), data@) && message@ == (
                #[trigger] nostr_event_message(event)),
    {
        proof {
            use_type_invariant(self);
        }
        let content = hex_encode(data);
        match sign_event(
            &self.secret,
            TEXT_NOTE,
            MAILBOX_TAG,
            &mailbox_id.as_string(),
            &content,
        ) {
            Ok(event) => {
                let message = event_message(&event);
                assert(posted(event@, self.author(), short_id_text(mailbox_id@), data@));
                Ok(message)
            },
            Err(e) => Err(NostrBackendError::EventError(e)),
        }
    }

    /// The message that asks a relay for the payload of a mailbox: for the text notes with the
    /// mailbox in their tag.
    pub fn read_message(&self, mailbox_id: &ShortId) -> (r: String)
        ensures
            exists|subscription: Seq<char>|
                r@ == #[trigger] nostr_req_message(
                    subscription,
                    1,
                    'h',
                    short_id_text(mailbox_id@),
                ),
    {
        let subscription = generate_subscription();
        req_message(&subscription, TEXT_NOTE, MAILBOX_TAG, &mailbox_id.as_string())
    }

    /// The payload in a relay's answer, if there is one yet.
    pub fn payload_in(body: &str) -> (r: Result<Option<Vec<u8>>, NostrBackendError>)
        ensures
            match read_payload(body@) {
                Ok(Some(data)) => r matches Ok(Some(payload)) && payload@ == data,
                Ok(None) => r matches Ok(None),
                Err(e) => r matches Err(NostrBackendError::HexError(e2)) && e2 == e,
            },
    {
        match first_event(body) {
            Some(content) => Self::decode_content(&content),
            None => Ok(None),
        }
    }

    /// What to do after a relay's answer: hand on the payload, or wait and ask again.
    pub fn poll_step(body: &str) -> (r: Result<PollStep, NostrBackendError>)
        ensures
            match read_payload(body@) {
                Ok(Some(data)) => r matches Ok(PollStep::Payload(payload)) && payload@ == data,
                Ok(None) => r matches Ok(PollStep::Wait { seconds }) && seconds == 1,
                Err(e) => r matches Err(NostrBackendError::HexError(e2)) && e2 == e,
            },
    {
        match Self::payload_in(body) {
            Ok(Some(payload)) => Ok(PollStep::Payload(payload)),
            Ok(None) => Ok(PollStep::Wait { seconds: POLL_SECONDS }),
            Err(e) => Err(e),
        }
    }

    /// The payload that the content of an event stands for.
    pub fn decode_content(content: &str) -> (r: Result<Option<Vec<u8>>, NostrBackendError>)
        ensures
            match hex_read(encode_utf8(content@)) {
                Ok(data) => r matches Ok(Some(payload)) && payload@ == data,
                Err(e) => r matches Err(NostrBackendError::HexError(e2)) && e2 == e,
            },
    {
        match hex_decode(content) {
            Ok(data) => Ok(Some(data)),
            Err(e) => Err(NostrBackendError::HexError(e)),
        }
    }
}

/// The event that is posted for a mailbox is one of those that a request for the mailbox asks for.
pub proof fn law_posted_event_is_asked_for(
    event: Seq<char>,
    author: Seq<u8>,
    mailbox: Seq<char>,
    data: Seq<u8>,
)
    requires
        posted(event, author, mailbox, data),
    ensures
        is_asked_for(nostr_event(event)->0, 1, 'h', mailbox),
{
    assert(nostr_event(event)->0.tags[0][0] == seq!['h']);
}

/// A relay that answers with the line of a posted event first gives its payload back, whatever
/// follows.
pub proof fn law_posted_payload_is_read(
    event: Seq<char>,
    author: Seq<u8>,
    mailbox: Seq<char>,
    data: Seq<u8>,
    rest: Seq<char>,
)
    requires
        posted(event, author, mailbox, data),
    ensures
        read_payload(event) == Ok::<_, HexError>(Some(data)),
        read_payload(event + seq!['\n'] + rest) == Ok::<_, HexError>(Some(data)),
{
    let body = event + seq!['\n'] + rest;
    assert forall|i: int| 0 <= i < event.len() implies #[trigger] body[i] != '\n' by {
        assert(event[i] != '\n');
    }
    lemma_first_stop(body, 0, |c: char| c == '\n', event.len() as int);
    lemma_first_stop(event, 0, |c: char| c == '\n', event.len() as int);
    assert(body.subrange(0, event.len() as int) =~= event);
    assert(event.subrange(0, event.len() as int) =~= event);
    law_hex_round_trips(data);
}

/// What stands behind a piece of text is read as it would be alone.
proof fn lemma_first_content_shifts(front: Seq<char>, rest: Seq<char>, from: int)
    requires
        0 <= from <= rest.len() + 1,
    ensures
        first_content(front + rest, front.len() + from) == first_content(rest, from),
    decreases rest.len() + 1 - from,
{
    let whole = front + rest;
    let at = front.len() + from;
    let stop = |c: char| c == '\n';
    if from <= rest.len() {
        lemma_first_stop_shifts(front, rest, from);
        let end = first_stop(rest, from, stop);
        lemma_first_stop_range(rest, from);
        assert(whole.subrange(at, front.len() + end) =~= rest.subrange(from, end));
        lemma_first_content_shifts(front, rest, end + 1);
    } else {
        assert(first_stop(rest, from, stop) == rest.len());
        assert(first_stop(whole, at, stop) == whole.len());
    }
}

/// The first line break behind a piece of text stands where it would stand alone.
proof fn lemma_first_stop_shifts(front: Seq<char>, rest: Seq<char>, from: int)
    requires
        0 <= from <= rest.len(),
    ensures
        first_stop(front + rest, front.len() + from, |c: char| c == '\n') == front.len()
            + first_stop(rest, from, |c: char| c == '\n'),
    decreases rest.len() - from,
{
    if from < rest.len() {
        assert((front + rest)[front.len() + from] == rest[from]);
        if rest[from] != '\n' {
            lemma_first_stop_shifts(front, rest, from + 1);
        }
    }
}

/// A line break is looked for from a position on.
proof fn lemma_first_stop_range(s: Seq<char>, from: int)
    requires
        0 <= from <= s.len(),
    ensures
        from <= first_stop(s, from, |c: char| c == '\n') <= s.len(),
    decreases s.len() - from,
{
    if from < s.len() && s[from] != '\n' {
        lemma_first_stop_range(s, from + 1);
    }
}

/// A line that is blank, or that is no event, is passed over: the answer means what the lines behind it
/// mean. An answer without lines means that there is nothing yet.
pub proof fn law_other_lines_are_passed_over(line: Seq<char>, rest: Seq<char>)
    requires
        forall|i: int| 0 <= i < line.len() ==> #[trigger] line[i] != '\n',
        is_blank(line) || nostr_event(line) is None,
    ensures
        read_payload(line + seq!['\n'] + rest) == read_payload(rest),
        read_payload(line) == Ok::<_, HexError>(None::<Seq<u8>>),
        read_payload(Seq::empty()) == Ok::<_, HexError>(None::<Seq<u8>>),
{
    let body = line + seq!['\n'] + rest;
    assert forall|i: int| 0 <= i < line.len() implies #[trigger] body[i] != '\n' by {
        assert(line[i] != '\n');
    }
    let n = line.len() as int;
    lemma_first_stop(body, 0, |c: char| c == '\n', n);
    assert(body.subrange(0, n) =~= line);
    let front = line + seq!['\n'];
    lemma_first_content_shifts(front, rest, 0);
    assert(front.len() == n + 1);
    lemma_first_stop(line, 0, |c: char| c == '\n', n);
    assert(line.subrange(0, n) =~= line);
    assert(first_content(line, n + 1) is None);
    let none = Seq::<char>::empty();
    lemma_first_stop(none, 0, |c: char| c == '\n', 0);
    assert(none.subrange(0, 0) =~= none);
    assert(is_blank(none));
    assert(first_content(none, 1) is None);
}

/// The first event of an answer decides: its content is the payload in hexadecimal notation, or is
/// refused for what is wrong with it.
pub proof fn law_first_event_decides(line: Seq<char>, rest: Seq<char>, event: EventModel)
    requires
        is_line(line),
        nostr_event(line) == Some(event),
    ensures
        read_payload(line + seq!['\n'] + rest) == (match hex_read(encode_utf8(event.content)) {
            Ok(data) => Ok::<_, HexError>(Some(data)),
            Err(e) => Err(e),
        }),
{
    let body = line + seq!['\n'] + rest;
    assert forall|i: int| 0 <= i < line.len() implies #[trigger] body[i] != '\n' by {
        assert(line[i] != '\n');
    }
    lemma_first_stop(body, 0, |c: char| c == '\n', line.len() as int);
    assert(body.subrange(0, line.len() as int) =~= line);
}

/// What is posted for a mailbox: a text note by the author, with the mailbox in its only tag, `h`, and the
/// payload in hexadecimal notation as its content.
pub proof fn law_posted_event_is_a_note(
    event: Seq<char>,
    author: Seq<u8>,
    mailbox: Seq<char>,
    data: Seq<u8>,
)
    requires
        posted(event, author, mailbox, data),
    ensures
        nostr_event(event) matches Some(e) && {
            &&& e.author == author
            &&& e.kind == 1
            &&& e.tags.len() == 1
            &&& e.tags[0].len() == 2
            &&& e.tags[0][0] == seq!['h']
            &&& e.tags[0][1] == mailbox
            &&& e.content == hex_text(data)
        },
{
}

/// The message of an error that has a cause ends with the message of the cause.
pub proof fn law_message_ends_with_the_cause(e: NostrBackendError)
    ensures
        match e {
            NostrBackendError::EventError(cause) => ends_with(e.spec_message(), cause@),
            NostrBackendError::ClientError(cause) => ends_with(e.spec_message(), cause@),
            NostrBackendError::HexError(cause) => ends_with(e.spec_message(), cause.spec_message()),
        },
{
    match e {
        NostrBackendError::EventError(cause) => lemma_ends_with("Event error: "@, cause@),
        NostrBackendError::ClientError(cause) => lemma_ends_with("Client error: "@, cause@),
        NostrBackendError::HexError(cause) => lemma_ends_with("Hex error: "@, cause.spec_message()),
    }
}

} // verus!
