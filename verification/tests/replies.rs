use multiparty_payjoin::error_codes::ErrorCode;
use multiparty_payjoin::hpke::HpkeKeyPair;
use multiparty_payjoin::directory::ShortId;
use multiparty_payjoin::nostr_db::{first_event, Db, NostrBackendError, PollStep};
use multiparty_payjoin::hex::{hex_encode, HexError};
use multiparty_payjoin::ohttp::{
    answer_of_message, ohttp_encapsulate, process_get_res, process_post_res, DirectoryResponseError,
    OhttpEncapsulationError, OhttpKeys,
};
use multiparty_payjoin::ohttp_directory::{simulate_directory_response, test_ohttp_key_config};
use multiparty_payjoin::reply_error::{InvalidJson, JsonReply};
use nostr::util::JsonUtil;
use serde_json::Value;

#[test]
fn error_codes_and_their_texts() {
    for (code, text) in [
        (ErrorCode::Unavailable, "unavailable"),
        (ErrorCode::NotEnoughMoney, "not-enough-money"),
        (ErrorCode::VersionUnsupported, "version-unsupported"),
        (ErrorCode::OriginalPsbtRejected, "original-psbt-rejected"),
    ] {
        assert_eq!(code.as_str(), text);
        assert_eq!(ErrorCode::parse(text), Some(code));
    }
    assert_eq!(ErrorCode::parse("Unavailable"), None);
}

#[test]
fn reply_as_json() {
    let reply = JsonReply::new(ErrorCode::NotEnoughMoney, "too poor")
        .with_extra("supported", Value::from(vec![1, 2]));
    let json = reply.to_json();
    assert_eq!(json["errorCode"], "not-enough-money");
    assert_eq!(json["message"], "too poor");
    assert_eq!(json["supported"], Value::from(vec![1, 2]));
    assert_eq!(json.as_object().expect("an object").len(), 3);
    assert_eq!(reply.status_code(), 400);
}

#[test]
fn extra_field_takes_the_place_of_a_standard_one() {
    let reply =
        JsonReply::new(ErrorCode::Unavailable, "gone").with_extra("message", Value::from("other"));
    assert_eq!(reply.to_json()["message"], "other");
    assert_eq!(reply.to_json()["errorCode"], "unavailable");
    assert_eq!(reply.status_code(), 500);
}

#[test]
fn reply_is_read_back() {
    let reply = JsonReply::new(ErrorCode::VersionUnsupported, "old");
    let read = JsonReply::from_bytes(reply.to_json().to_string().as_bytes()).expect("JSON");
    assert_eq!(read, reply);
    assert_eq!(read.error_code(), ErrorCode::VersionUnsupported);
    assert_eq!(read.message(), "old");
}

#[test]
fn missing_and_unknown_fields_have_defaults() {
    let read = JsonReply::from_bytes(b"{}").expect("JSON");
    assert_eq!(read, JsonReply::new(ErrorCode::Unavailable, "Receiver error"));
    let read = JsonReply::from_bytes(br#"{"errorCode":"strange","message":5}"#).expect("JSON");
    assert_eq!(read, JsonReply::new(ErrorCode::Unavailable, "Receiver error"));
    let read = JsonReply::from_bytes(br#"{"extra":{"a":true}}"#).expect("JSON");
    assert_eq!(
        read,
        JsonReply::new(ErrorCode::Unavailable, "Receiver error")
            .with_extra("a", Value::from(true))
    );
    assert_eq!(JsonReply::from_bytes(b"[1]").expect("JSON").message(), "Receiver error");
    assert_eq!(JsonReply::from_bytes(b"no json"), Err(InvalidJson {}));
}

#[test]
fn reply_of_fields() {
    let reply = JsonReply::from_fields(
        Some("original-psbt-rejected".to_owned()),
        Some("why".to_owned()),
        None,
    );
    assert_eq!(reply, JsonReply::new(ErrorCode::OriginalPsbtRejected, "why"));
}

#[test]
fn directory_answers() {
    let config = test_ohttp_key_config();
    let keys = config.ohttp_keys();
    let ask = || ohttp_encapsulate(&keys, "GET", "https://payjo.in/x", None).expect("request");

    let (request, ctx) = ask();
    let response = simulate_directory_response(&config, &request, 200, b"content").expect("opens");
    assert_eq!(response.len(), 8192);
    assert_eq!(process_get_res(&response, ctx), Ok(Some(b"content".to_vec())));

    let (request, ctx) = ask();
    let response = simulate_directory_response(&config, &request, 202, b"").expect("opens");
    assert_eq!(process_get_res(&response, ctx), Ok(None));

    let (request, ctx) = ask();
    let response = simulate_directory_response(&config, &request, 404, b"").expect("opens");
    let err = process_get_res(&response, ctx).unwrap_err();
    assert_eq!(err, DirectoryResponseError::UnexpectedStatusCode(404));
    assert!(err.is_fatal());

    let (request, ctx) = ask();
    let response = simulate_directory_response(&config, &request, 503, b"").expect("opens");
    let err = process_post_res(&response, ctx).unwrap_err();
    assert_eq!(err, DirectoryResponseError::UnexpectedStatusCode(503));
    assert!(!err.is_fatal());

    let other = test_ohttp_key_config();
    let (request, _) = ask();
    assert!(simulate_directory_response(&other, &request, 200, b"").is_none());
}

#[test]
fn response_of_another_request_does_not_open() {
    let config = test_ohttp_key_config();
    let keys = config.ohttp_keys();
    let (one, _) = ohttp_encapsulate(&keys, "GET", "https://payjo.in/x", None).expect("request");
    let (_, ctx) = ohttp_encapsulate(&keys, "GET", "https://payjo.in/x", None).expect("request");
    let response = simulate_directory_response(&config, &one, 200, b"").expect("opens");
    assert_eq!(
        process_post_res(&response, ctx),
        Err(DirectoryResponseError::OhttpDecapsulation(OhttpEncapsulationError::Ohttp))
    );
}

#[test]
fn message_that_is_no_response() {
    let bhttp = Err(DirectoryResponseError::OhttpDecapsulation(OhttpEncapsulationError::Bhttp));
    assert_eq!(answer_of_message(None), bhttp);
    assert_eq!(answer_of_message(Some((None, vec![]))), bhttp);
    let answer = answer_of_message(Some((Some(200), vec![7]))).expect("a response");
    assert_eq!((answer.status, answer.body), (200, vec![7]));
}

#[test]
fn ohttp_keys_round_trip() {
    let keys = OhttpKeys { key_id: 3, public_key: HpkeKeyPair::gen_keypair().public };
    let config = keys.encode();
    assert_eq!(config.len(), 74);
    assert_eq!(config[0], 3);
    assert_eq!(OhttpKeys::decode(&config), Some(keys));
    assert_eq!(OhttpKeys::decode(&config[1..]), None);
}

#[test]
fn encapsulated_requests_differ_and_have_one_size() {
    let keys = test_ohttp_key_config().ohttp_keys();
    let (one, _) = ohttp_encapsulate(&keys, "POST", "https://payjo.in/x", Some(b"a")).expect("short");
    let (two, _) = ohttp_encapsulate(&keys, "POST", "https://payjo.in/x", Some(b"a")).expect("short");
    assert_eq!(one.len(), 8192);
    assert_eq!(two.len(), 8192);
    assert_ne!(one, two);
    let content = vec![0u8; 9000];
    assert_eq!(
        ohttp_encapsulate(&keys, "POST", "https://payjo.in/x", Some(&content)).err(),
        Some(OhttpEncapsulationError::Bhttp)
    );
}

#[test]
fn posted_payload_is_read() {
    let db = Db::new();
    assert_eq!(db.timeout_seconds(), 5);
    let mailbox = ShortId([3u8; 8]);
    let message = db.post_message(&mailbox, b"payload").expect("signed");
    let value: Value = serde_json::from_str(&message).expect("JSON");
    assert_eq!(value[0], "EVENT");
    assert_eq!(value[1]["content"], hex_encode(b"payload"));
    assert_eq!(value[1]["tags"][0][0], "h");
    assert_eq!(value[1]["tags"][0][1], mailbox.as_string());
    let event = nostr::event::Event::from_json(value[1].to_string()).expect("an event");
    event.verify().expect("a valid signature");

    let body = format!("\n \nno event\n{}\n", value[1]);
    assert_eq!(first_event(&body), Some(hex_encode(b"payload")));
    assert_eq!(Db::payload_in(&body), Ok(Some(b"payload".to_vec())));
    assert_eq!(Db::payload_in("\n"), Ok(None));
    assert_eq!(Db::payload_in(""), Ok(None));
    assert_eq!(Db::poll_step(&body), Ok(PollStep::Payload(b"payload".to_vec())));
    assert_eq!(Db::poll_step("no event\n"), Ok(PollStep::Wait { seconds: 1 }));
}

#[test]
fn read_message_asks_for_the_mailbox() {
    let mailbox = ShortId([4u8; 8]);
    let message = Db::new().read_message(&mailbox);
    let value: Value = serde_json::from_str(&message).expect("JSON");
    assert_eq!(value[0], "REQ");
    assert_eq!(value[2]["kinds"][0], 1);
    assert_eq!(value[2]["#h"][0], mailbox.as_string());
}

#[test]
fn posted_event_is_asked_for() {
    let mailbox = ShortId([4u8; 8]);
    let db = Db::new();
    let message = db.post_message(&mailbox, b"payload").expect("an event");
    let posted: Value = serde_json::from_str(&message).expect("JSON");
    let asked: Value = serde_json::from_str(&db.read_message(&mailbox)).expect("JSON");
    assert_eq!(posted[1]["kind"], asked[2]["kinds"][0]);
    assert_eq!(posted[1]["tags"][0][0], "h");
    assert_eq!(posted[1]["tags"][0][1], asked[2]["#h"][0]);
}

#[test]
fn content_that_is_not_hexadecimal() {
    assert_eq!(
        Db::decode_content("xyz"),
        Err(NostrBackendError::HexError(HexError::OddLength))
    );
    assert_eq!(
        NostrBackendError::HexError(HexError::OddLength).message(),
        "Hex error: Odd number of digits"
    );
    assert_eq!(NostrBackendError::EventError("bad".to_owned()).message(), "Event error: bad");
    assert_eq!(NostrBackendError::ClientError("down".to_owned()).message(), "Client error: down");
    assert_eq!(Db::decode_content("00ff"), Ok(Some(vec![0, 255])));
}
