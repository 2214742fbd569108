use multiparty_payjoin::append_mailbox::MailboxError;
use multiparty_payjoin::directory::ShortId;
use multiparty_payjoin::hpke::HpkeError;
use multiparty_payjoin::multiparty::participant::error::ParticipantError;
use multiparty_payjoin::multiparty::session_creator::error::{
    InternalSessionCreatorSessionError, SessionCreatorSessionError,
};
use multiparty_payjoin::multiparty::uri::MultipartyPjUri;
use multiparty_payjoin::multiparty::{
    InitiatorError, ResponderError, SessionCreatorError, SessionParametersError,
};
use multiparty_payjoin::nostr_db::Db;
use multiparty_payjoin::ohttp::{DirectoryResponseError, OhttpEncapsulationError};
use multiparty_payjoin::text::trim;
use multiparty_payjoin::url::UrlParseError;
use serde_json::Value;

#[test]
fn url_errors_are_wrapped() {
    let e = UrlParseError::EmptyHost;
    assert_eq!(MailboxError::from(e), MailboxError::ParseUrl(e));
    assert!(MailboxError::from(e).message().starts_with("URL parse error: "));
    assert_eq!(InitiatorError::from(e), InitiatorError::ParseUrl(e));
    assert_eq!(ResponderError::from(e), ResponderError::ParseUrl(e));
    assert_eq!(ParticipantError::from(e), ParticipantError::ParseUrl(e));
    assert_eq!(SessionCreatorError::from(e), SessionCreatorError::ParseUrl(e));
    assert_eq!(
        SessionCreatorSessionError::from(e),
        SessionCreatorSessionError(InternalSessionCreatorSessionError::ParseUrl(e))
    );
}

#[test]
fn encapsulation_errors_are_wrapped() {
    let e = OhttpEncapsulationError::Bhttp;
    assert_eq!(MailboxError::from(e), MailboxError::Encapsulation(e));
    assert_eq!(InitiatorError::from(e), InitiatorError::OhttpEncapsulation(e));
    assert_eq!(ResponderError::from(e), ResponderError::OhttpEncapsulation(e));
    assert_eq!(ParticipantError::from(e), ParticipantError::OhttpEncapsulation(e));
    assert_eq!(SessionCreatorError::from(e), SessionCreatorError::OhttpEncapsulation(e));
    assert_eq!(
        SessionCreatorSessionError::from(e),
        SessionCreatorSessionError(InternalSessionCreatorSessionError::OhttpEncapsulation(e))
    );
}

#[test]
fn hpke_and_response_errors_are_wrapped() {
    let e = HpkeError::InvalidPublicKey;
    assert_eq!(MailboxError::from(e), MailboxError::Hpke(e));
    assert_eq!(InitiatorError::from(e), InitiatorError::Hpke(e));
    assert_eq!(ResponderError::from(e), ResponderError::Hpke(e));
    assert_eq!(ParticipantError::from(e), ParticipantError::Hpke(e));
    let e = DirectoryResponseError::InvalidSize(3);
    assert_eq!(MailboxError::from(e), MailboxError::Response(e));
    assert_eq!(InitiatorError::from(e), InitiatorError::DirectoryResponse(e));
    assert_eq!(ResponderError::from(e), ResponderError::DirectoryResponse(e));
    assert_eq!(ParticipantError::from(e), ParticipantError::DirectoryResponse(e));
    let e = SessionParametersError::InvalidSessionSecret;
    assert_eq!(ParticipantError::from(e), ParticipantError::SessionParameters(e));
    let e = InternalSessionCreatorSessionError::AlreadyDelivered;
    assert_eq!(SessionCreatorSessionError::from(e), SessionCreatorSessionError(e));
}

#[test]
fn white_space_is_trimmed() {
    assert_eq!(trim(" \t a b \n"), "a b");
    assert_eq!(trim("\u{3000}x\u{a0}"), "x");
    assert_eq!(trim("  "), "");
}

#[test]
fn scheme_ends_between_characters() {
    assert!(MultipartyPjUri::can_parse("bitcoin:"));
    assert!(MultipartyPjUri::can_parse("short"));
    assert!(MultipartyPjUri::can_parse("  bitcoin:\u{e9}"));
    assert!(!MultipartyPjUri::can_parse("bitcoin\u{e9}"));
}

#[test]
fn backend_posts_under_one_key() {
    let db = Db::new();
    let author = |db: &Db| {
        let message = db.post_message(&ShortId([1u8; 8]), b"x").expect("signed");
        let value: Value = serde_json::from_str(&message).expect("JSON");
        assert_eq!(value[1]["kind"], 1);
        value[1]["pubkey"].to_string()
    };
    assert_eq!(author(&db), author(&db.clone()));
    assert_ne!(author(&db), author(&Db::new()));
}
