use multiparty_payjoin::append_mailbox::{
    append_request, decrypt_frames, process_append_response, process_read_response,
    read_mailbox_content, read_request, split_frames, MailboxError,
};
use multiparty_payjoin::directory::{mailbox_endpoint, ShortId, PADDED_MESSAGE_BYTES};
use multiparty_payjoin::hpke::{encrypt_message_a, HpkeError, HpkeKeyPair};
use multiparty_payjoin::ohttp::{DirectoryResponseError, OhttpEncapsulationError};
use multiparty_payjoin::ohttp_directory::{
    simulate_directory_response, test_ohttp_key_config, OHTTP_RELAY,
};
use multiparty_payjoin::url::{Url, UrlParseError};

#[test]
fn split_frames_splits_on_frame_boundaries() {
    let blob = vec![0u8; PADDED_MESSAGE_BYTES * 3];
    let frames = split_frames(&blob).expect("whole frames");
    assert_eq!(frames.len(), 3);
    assert!(frames.iter().all(|f| f.len() == PADDED_MESSAGE_BYTES));
}

#[test]
fn split_frames_empty_is_no_frames() {
    assert!(split_frames(&[]).expect("empty is valid").is_empty());
}

#[test]
fn split_frames_rejects_partial() {
    assert!(matches!(
        split_frames(&[0u8; PADDED_MESSAGE_BYTES + 1]),
        Err(MailboxError::PartialFrame { len }) if len == PADDED_MESSAGE_BYTES + 1
    ));
}

#[test]
fn mailbox_endpoint_appends_short_id() {
    let directory = Url::parse("https://payjo.in").expect("valid url");
    let mailbox = ShortId([0u8; 8]);
    let endpoint = mailbox_endpoint(&directory, &mailbox);
    assert!(endpoint.as_string().ends_with(&mailbox.as_string()));
}

#[test]
fn decrypt_frames_keeps_only_messages_for_the_reader() {
    let alice = HpkeKeyPair::gen_keypair();
    let bob = HpkeKeyPair::gen_keypair();
    let sender = HpkeKeyPair::gen_keypair();

    // Two frames sealed to alice, one to bob — as append_request builds them.
    let frames = vec![
        encrypt_message_a(b"for alice 1".to_vec(), sender.public_key(), alice.public_key())
            .unwrap(),
        encrypt_message_a(b"for bob".to_vec(), sender.public_key(), bob.public_key()).unwrap(),
        encrypt_message_a(b"for alice 2".to_vec(), sender.public_key(), alice.public_key())
            .unwrap(),
    ];

    // Alice reads only the two frames sealed to her, in order.
    let alice_msgs = decrypt_frames(&frames, &alice);
    let plaintexts: Vec<&[u8]> = alice_msgs.iter().map(|m| m.plaintext.as_slice()).collect();
    assert_eq!(plaintexts, vec![&b"for alice 1"[..], &b"for alice 2"[..]]);
    assert!(alice_msgs.iter().all(|m| m.reply_key == *sender.public_key()));

    // Bob reads only his one frame; a stranger reads none.
    assert_eq!(decrypt_frames(&frames, &bob).len(), 1);
    assert!(decrypt_frames(&frames, &HpkeKeyPair::gen_keypair()).is_empty());
}

#[test]
fn zero_bytes_at_the_end_count_as_padding() {
    let reader = HpkeKeyPair::gen_keypair();
    let sender = HpkeKeyPair::gen_keypair();
    let message = [1u8, 0, 2, 0, 0];
    let frame =
        encrypt_message_a(message.to_vec(), sender.public_key(), reader.public_key()).unwrap();
    let mut read = decrypt_frames(&vec![frame], &reader).remove(0).plaintext;
    assert_eq!(read, [1, 0, 2]);
    read.resize(message.len(), 0);
    assert_eq!(read, message);
}

#[test]
fn mailbox_url_is_the_directory_and_the_id() {
    let directory = Url::parse("https://payjo.in").expect("valid url");
    let endpoint = mailbox_endpoint(&directory, &ShortId([0u8; 8]));
    assert_eq!(endpoint.as_string(), "https://payjo.in/ID1QQQQQQQQQQQQQ");
}

#[test]
fn append_and_read_over_the_directory() {
    let config = test_ohttp_key_config();
    let keys = config.ohttp_keys();
    let directory = Url::parse("https://payjo.in").expect("valid url");
    let reader = HpkeKeyPair::gen_keypair();
    let sender = HpkeKeyPair::gen_keypair();
    let mailbox = reader.public_key().short_id();

    let (request, ctx) = append_request(
        &keys,
        &directory,
        OHTTP_RELAY,
        &mailbox,
        b"hello",
        sender.public_key(),
        reader.public_key(),
    )
    .expect("request");
    assert_eq!(request.url, "http://127.0.0.1:8080/https://payjo.in/");
    assert_eq!(request.content_type, "message/ohttp-req");
    assert_eq!(request.body.len(), 8192);
    let response =
        simulate_directory_response(&config, &request.body, 200, &[]).expect("request opens");
    assert_eq!(process_append_response(&response, ctx), Ok(()));

    let frame =
        encrypt_message_a(b"hello".to_vec(), sender.public_key(), reader.public_key()).unwrap();
    let (request, ctx) = read_request(&keys, &directory, OHTTP_RELAY, &mailbox).expect("request");
    let response =
        simulate_directory_response(&config, &request.body, 200, &frame).expect("request opens");
    let messages = process_read_response(&response, ctx, &reader).expect("messages");
    assert_eq!(messages.len(), 1);
    assert_eq!(messages[0].plaintext, b"hello");
    assert_eq!(messages[0].reply_key, *sender.public_key());
}

#[test]
fn empty_mailbox_has_no_messages() {
    let config = test_ohttp_key_config();
    let directory = Url::parse("https://payjo.in").expect("valid url");
    let reader = HpkeKeyPair::gen_keypair();
    let (request, ctx) = read_request(
        &config.ohttp_keys(),
        &directory,
        OHTTP_RELAY,
        &reader.public_key().short_id(),
    )
    .expect("request");
    let response =
        simulate_directory_response(&config, &request.body, 202, &[]).expect("request opens");
    assert!(process_read_response(&response, ctx, &reader).expect("nothing yet").is_empty());
}

#[test]
fn append_errors() {
    let config = test_ohttp_key_config();
    let keys = config.ohttp_keys();
    let directory = Url::parse("https://payjo.in").expect("valid url");
    let pair = HpkeKeyPair::gen_keypair();
    let mailbox = pair.public_key().short_id();

    let too_large = vec![1u8; 7024];
    let err = append_request(
        &keys,
        &directory,
        OHTTP_RELAY,
        &mailbox,
        &too_large,
        pair.public_key(),
        pair.public_key(),
    )
    .err();
    assert_eq!(
        err,
        Some(MailboxError::Hpke(HpkeError::PayloadTooLarge { actual: 7024, max: 7023 }))
    );
    let fits = append_request(
        &keys,
        &directory,
        OHTTP_RELAY,
        &mailbox,
        &too_large[..7023],
        pair.public_key(),
        pair.public_key(),
    );
    assert!(fits.is_ok());

    let err = append_request(
        &keys,
        &directory,
        "no url",
        &mailbox,
        b"",
        pair.public_key(),
        pair.public_key(),
    )
    .err();
    assert_eq!(err, Some(MailboxError::IntoUrl(UrlParseError::MissingScheme)));

    let long = Url::parse(&format!("https://payjo.in/{}", "a".repeat(2000))).expect("valid url");
    let err = append_request(
        &keys,
        &long,
        OHTTP_RELAY,
        &mailbox,
        b"",
        pair.public_key(),
        pair.public_key(),
    )
    .err();
    assert_eq!(err, Some(MailboxError::Encapsulation(OhttpEncapsulationError::Bhttp)));
}

#[test]
fn refused_append_and_unreadable_response() {
    let config = test_ohttp_key_config();
    let directory = Url::parse("https://payjo.in").expect("valid url");
    let pair = HpkeKeyPair::gen_keypair();
    let mailbox = pair.public_key().short_id();
    let make = || {
        read_request(&config.ohttp_keys(), &directory, OHTTP_RELAY, &mailbox).expect("request")
    };

    let (request, ctx) = make();
    let response =
        simulate_directory_response(&config, &request.body, 413, &[]).expect("request opens");
    assert_eq!(
        process_append_response(&response, ctx),
        Err(MailboxError::Response(DirectoryResponseError::UnexpectedStatusCode(413)))
    );

    let (_, ctx) = make();
    assert_eq!(
        process_append_response(&[0u8; 10], ctx),
        Err(MailboxError::Response(DirectoryResponseError::InvalidSize(10)))
    );

    let (_, ctx) = make();
    assert_eq!(
        process_append_response(&[0u8; 8192], ctx),
        Err(MailboxError::Response(DirectoryResponseError::OhttpDecapsulation(
            OhttpEncapsulationError::Ohttp
        )))
    );
}

#[test]
fn appended_frame_comes_last() {
    let reader = HpkeKeyPair::gen_keypair();
    let sender = HpkeKeyPair::gen_keypair();
    let mut blob = Vec::new();
    for text in [&b"one"[..], &b"two"[..], &b"three"[..]] {
        blob.extend(
            encrypt_message_a(text.to_vec(), sender.public_key(), reader.public_key()).unwrap(),
        );
        let messages = read_mailbox_content(Some(blob.clone()), &reader).expect("whole frames");
        assert_eq!(messages.len(), blob.len() / PADDED_MESSAGE_BYTES);
        assert_eq!(messages.last().unwrap().plaintext, text);
    }
    blob.push(0);
    assert_eq!(
        read_mailbox_content(Some(blob.clone()), &reader),
        Err(MailboxError::PartialFrame { len: blob.len() })
    );
    assert_eq!(read_mailbox_content(None, &reader), Ok(vec![]));
}

#[test]
fn mailbox_error_messages() {
    assert_eq!(
        MailboxError::PartialFrame { len: 7 }.message(),
        "mailbox payload of 7 bytes is not a whole number of frames"
    );
}
