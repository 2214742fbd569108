use std::collections::HashMap;

use bitcoin_ohttp::hpke::{Aead, Kdf, Kem};
use bitcoin_ohttp::{KeyConfig, Server, SymmetricSuite};
use multiparty_payjoin::directory::ShortId;
use multiparty_payjoin::multiparty::linked_mailbox::{
    generate_short_id, read_step, status_text, write_step, DirectoryLinkedMailbox,
    LinkedMailboxError, ReadStep, WriteStep,
};
use multiparty_payjoin::ohttp::{
    DirectoryAnswer, OhttpEncapsulationError, OhttpKeys, Request,
};
use multiparty_payjoin::url::UrlParseError;

/// A directory in memory whose mailboxes hold one message each.
struct Directory {
    server: Server,
    slots: HashMap<String, Vec<u8>>,
}

impl Directory {
    fn new() -> Directory {
        let suite = SymmetricSuite::new(Kdf::HkdfSha256, Aead::ChaCha20Poly1305);
        let config = KeyConfig::new(1, Kem::K256Sha256, vec![suite]).expect("a key");
        Directory { server: Server::new(config).expect("a server"), slots: HashMap::new() }
    }

    fn keys(&self) -> OhttpKeys {
        OhttpKeys::decode(&self.server.config().encode().expect("encodes")).expect("a key")
    }

    fn answer(&mut self, request: &Request) -> Vec<u8> {
        let (bytes, ctx) = self.server.decapsulate(&request.body).expect("opens");
        let message =
            bhttp::Message::read_bhttp(&mut std::io::Cursor::new(&bytes[..])).expect("a request");
        let path =
            String::from_utf8(message.control().path().expect("a path").to_vec()).expect("text");
        let (status, body) = match message.control().method().expect("a method") {
            b"POST" => match self.slots.contains_key(&path) {
                true => (409u16, vec![]),
                false => {
                    self.slots.insert(path, message.content().to_vec());
                    (200, vec![])
                }
            },
            _ => match self.slots.get(&path) {
                Some(content) => (200, content.clone()),
                None => (202, vec![]),
            },
        };
        let status = bhttp::StatusCode::try_from(status).expect("a status");
        let mut reply = bhttp::Message::response(status);
        reply.write_content(&body);
        let mut out = Vec::new();
        reply.write_bhttp(bhttp::Mode::KnownLength, &mut out).expect("encodes");
        out.resize(8144, 0);
        ctx.encapsulate(&out).expect("encapsulates")
    }
}

fn channel_of(directory: &Directory, secret: [u8; 32]) -> DirectoryLinkedMailbox {
    DirectoryLinkedMailbox::new(
        "http://relay.example/https://payjo.in".to_owned(),
        "https://payjo.in".to_owned(),
        directory.keys(),
        secret,
    )
}

fn channel(directory: &Directory) -> DirectoryLinkedMailbox {
    channel_of(directory, [9u8; 32])
}

fn write(channel: &mut DirectoryLinkedMailbox, directory: &mut Directory, message: &[u8]) -> u64 {
    let mut index = channel.next_write_index;
    loop {
        let (request, ctx) = channel.write_request(index, message).expect("request");
        let response = directory.answer(&request);
        match channel.process_write_response(index, &response, ctx).expect("a known status") {
            WriteStep::Written(slot) => return slot,
            WriteStep::TryNext(next) => index = next,
        }
    }
}

fn read(channel: &DirectoryLinkedMailbox, directory: &mut Directory) -> Vec<Vec<u8>> {
    let mut messages = Vec::new();
    let mut index = 0;
    loop {
        let (request, ctx) = channel.read_request(index).expect("request");
        let response = directory.answer(&request);
        match channel.process_read_response(index, &response, ctx).expect("a known status") {
            ReadStep::Message(message, next) => {
                messages.push(message);
                index = next;
            }
            ReadStep::End => return messages,
        }
    }
}

#[test]
fn slot_ids_hash_the_tag_the_secret_and_the_index() {
    let secret = [1u8; 32];
    let mut input = b"v0-PayjoinDirectoryEntry".to_vec();
    input.extend(secret);
    input.extend(5u64.to_le_bytes());
    assert_eq!(generate_short_id(&secret, 5), ShortId::of_bytes(&input));
    assert_ne!(generate_short_id(&secret, 5), generate_short_id(&secret, 6));
}

#[test]
fn concurrent_writers_take_distinct_slots() {
    let mut directory = Directory::new();
    let mut one = channel(&directory);
    let mut two = channel(&directory);
    assert_eq!(write(&mut one, &mut directory, b"first"), 0);
    assert_eq!(write(&mut two, &mut directory, b"second"), 1);
    assert_eq!(write(&mut one, &mut directory, b"third"), 2);
    assert_eq!(one.next_write_index, 3);
    assert_eq!(two.next_write_index, 2);
    assert_eq!(
        read(&two, &mut directory),
        vec![b"first".to_vec(), b"second".to_vec(), b"third".to_vec()]
    );
    assert_eq!(read(&one, &mut directory), read(&two, &mut directory));
}

#[test]
fn peer_with_another_secret_sees_an_empty_channel() {
    let mut directory = Directory::new();
    let mut alice = channel(&directory);
    let mut bob = channel(&directory);
    let mut carol = channel(&directory);
    write(&mut alice, &mut directory, b"Hello from Alice");
    write(&mut bob, &mut directory, b"Hello from Bob");
    write(&mut carol, &mut directory, b"Hello from Carol");
    let mut observed = read(&alice, &mut directory);
    observed.sort();
    assert_eq!(
        observed,
        vec![
            b"Hello from Alice".to_vec(),
            b"Hello from Bob".to_vec(),
            b"Hello from Carol".to_vec()
        ]
    );

    let mut stranger = channel_of(&directory, [10u8; 32]);
    assert!(read(&stranger, &mut directory).is_empty());
    assert_eq!(write(&mut stranger, &mut directory, b"elsewhere"), 0);
    assert_eq!(read(&stranger, &mut directory), vec![b"elsewhere".to_vec()]);
    assert_eq!(read(&alice, &mut directory).len(), 3);
}

#[test]
fn empty_channel_has_no_messages() {
    let mut directory = Directory::new();
    let channel = channel(&directory);
    assert!(read(&channel, &mut directory).is_empty());
}

#[test]
fn requests_go_to_the_gateway() {
    let directory = Directory::new();
    let (request, _) = channel(&directory).read_request(0).expect("request");
    assert_eq!(request.url, "http://relay.example/https://payjo.in");
    assert_eq!(request.content_type, "message/ohttp-req");
    assert_eq!(request.body.len(), 8192);
}

#[test]
fn steps_by_status() {
    assert_eq!(write_step(3, 200), Ok(WriteStep::Written(3)));
    assert_eq!(write_step(3, 409), Ok(WriteStep::TryNext(4)));
    assert_eq!(write_step(3, 404), Err(LinkedMailboxError::UnexpectedWriteStatus(404)));
    let answer = |status: u16| DirectoryAnswer { status, body: vec![1, 2] };
    assert_eq!(read_step(3, answer(200)), Ok(ReadStep::Message(vec![1, 2], 4)));
    assert_eq!(read_step(3, answer(202)), Ok(ReadStep::End));
    assert_eq!(read_step(3, answer(500)), Err(LinkedMailboxError::UnexpectedReadStatus(500)));
}

#[test]
fn channel_errors() {
    let directory = Directory::new();
    let mut broken = channel(&directory);
    broken.directory_url = "payjo.in".to_owned();
    assert_eq!(
        broken.read_request(0).err(),
        Some(LinkedMailboxError::Encapsulation(OhttpEncapsulationError::ParseUrl(
            UrlParseError::MissingScheme
        )))
    );
    let good = channel(&directory);
    let (_, ctx) = good.read_request(0).expect("request");
    let err = good.process_read_response(0, &[0u8; 3], ctx).unwrap_err();
    assert_eq!(err, LinkedMailboxError::ResponseSize);
    assert_eq!(err.message(), "unexpected relay response size");
    let (_, ctx) = good.read_request(0).expect("request");
    let err = good.process_read_response(0, &[0u8; 8192], ctx).unwrap_err();
    assert_eq!(err, LinkedMailboxError::Decapsulation(OhttpEncapsulationError::Ohttp));
}

#[test]
fn status_texts() {
    assert_eq!(status_text(409, Some("Conflict".to_owned())), "409 Conflict");
    assert_eq!(status_text(599, None), "599 <unknown status code>");
    assert_eq!(
        LinkedMailboxError::UnexpectedWriteStatus(404).message(),
        "unexpected write status: 404 Not Found"
    );
    assert_eq!(
        LinkedMailboxError::UnexpectedReadStatus(599).message(),
        "unexpected directory status: 599 <unknown status code>"
    );
}
