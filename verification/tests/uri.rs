use multiparty_payjoin::directory::ShortId;
use multiparty_payjoin::hpke::HpkeKeyPair;
use multiparty_payjoin::multiparty::uri::{
    build_multiparty_pj_uri, MultipartyPjUri, MultipartyUriError, Network,
};
use multiparty_payjoin::ohttp_directory::test_ohttp_key_config;
use multiparty_payjoin::time::Time;
use multiparty_payjoin::uri::{PjParam, PjParseError, V2PjParam};
use multiparty_payjoin::url::{Url, UrlParseError};

const EXAMPLE_URL: &str = "https://example.com";

fn sample_v2_pj_param() -> PjParam {
    let directory = Url::parse(EXAMPLE_URL).expect("valid directory URL");
    let expiration = Time::from_now(60 * 60 * 24).expect("valid expiration");
    PjParam::V2(V2PjParam::new(
        directory,
        ShortId([0xab; 8]),
        expiration,
        test_ohttp_key_config().ohttp_keys(),
        HpkeKeyPair::gen_keypair().public,
    ))
}

#[test]
fn build_and_parse_addressless_uri() {
    let pj_param = sample_v2_pj_param();
    let built = build_multiparty_pj_uri(&pj_param);
    assert!(built.as_str().starts_with("bitcoin:?"));
    assert!(!built.as_str().contains("tb1"));
    assert!(built.as_str().contains("mppj=1"));

    let parsed = MultipartyPjUri::parse(built.as_str()).expect("round-trip parse");
    assert_eq!(
        parsed.pj_param().endpoint().to_ascii_lowercase(),
        built.pj_param().endpoint().to_ascii_lowercase(),
    );
}

#[test]
fn rejects_uri_with_address() {
    let built = build_multiparty_pj_uri(&sample_v2_pj_param());
    let with_addr = built.as_str().replacen(
        "bitcoin:?",
        "bitcoin:tb1q6d3a2w975yny0asuvd9a67ner4nks58ff0q8g4?",
        1,
    );
    assert!(matches!(
        MultipartyPjUri::parse(&with_addr),
        Err(MultipartyUriError::UnexpectedAddress)
    ));
}

#[test]
fn rejects_missing_mppj() {
    let built = build_multiparty_pj_uri(&sample_v2_pj_param());
    let without_mppj = built.as_str().replace("&mppj=1", "");
    assert!(matches!(
        MultipartyPjUri::parse(&without_mppj),
        Err(MultipartyUriError::MissingMppj)
    ));
}

#[test]
fn rejects_bad_mppj() {
    let err = MultipartyPjUri::parse("bitcoin:?pj=https://example.com/pj&mppj=0").unwrap_err();
    assert!(matches!(err, MultipartyUriError::BadMppj));
}

#[test]
fn built_uri_is_read_back() {
    let pj_param = sample_v2_pj_param();
    let built = build_multiparty_pj_uri(&pj_param);
    let parsed = MultipartyPjUri::parse(built.as_str()).expect("round-trip parse");
    assert_eq!(*parsed.pj_param(), pj_param);
    assert_eq!(parsed.as_str(), built.as_str());
}

#[test]
fn network_check_of_an_addressless_uri_changes_nothing() {
    let built = build_multiparty_pj_uri(&sample_v2_pj_param());
    let uri = built.as_str().to_owned();
    let checked = built.into_network_checked(Network::Bitcoin).expect("no address to check");
    assert_eq!(checked.as_str(), uri);
}

#[test]
fn rejects_what_is_no_uri() {
    assert!(matches!(
        MultipartyPjUri::parse("https://example.com"),
        Err(MultipartyUriError::Composer(_))
    ));
    assert!(matches!(
        MultipartyPjUri::parse("bitcoin:?mppj=1"),
        Err(MultipartyUriError::MissingPj)
    ));
    assert!(matches!(
        MultipartyPjUri::parse("bitcoin:?pj=no-url&mppj=1"),
        Err(MultipartyUriError::Pj(PjParseError::BadEndpoint(UrlParseError::MissingScheme)))
    ));
}

#[test]
fn pj_text_has_an_upper_case_origin_and_the_parameters_in_its_fragment() {
    let text = sample_v2_pj_param().as_string();
    assert!(text.starts_with("HTTPS://EXAMPLE.COM/ID1"));
    let fragment = text.split('#').nth(1).expect("a fragment");
    let parts: Vec<&str> = fragment.split('-').collect();
    assert_eq!(parts.len(), 3);
    assert!(parts[0].starts_with("EX1"));
    assert!(parts[1].starts_with("OH1"));
    assert!(parts[2].starts_with("RK1"));
    assert_eq!(PjParam::parse(&text).expect("read back").as_string(), text);
}

#[test]
fn pj_without_a_fragment_is_v1() {
    let parsed = PjParam::parse("https://example.com/pj").expect("a URL");
    assert!(matches!(parsed, PjParam::V1(_)));
    assert_eq!(parsed.endpoint(), "https://example.com/pj");
}

#[test]
fn pj_errors() {
    let text = sample_v2_pj_param().as_string();
    let (mailbox, fragment) = text.split_once('#').expect("a fragment");
    let parts: Vec<&str> = fragment.split('-').collect();
    assert_eq!(
        PjParam::parse(&format!("https://example.com/nothing#{}", fragment)),
        Err(PjParseError::BadShortId)
    );
    assert_eq!(
        PjParam::parse(&format!("{}#{}-{}", mailbox, parts[1], parts[2])),
        Err(PjParseError::BadExpiration)
    );
    assert_eq!(
        PjParam::parse(&format!("{}#{}-{}", mailbox, parts[0], parts[2])),
        Err(PjParseError::BadOhttpKeys)
    );
    assert_eq!(
        PjParam::parse(&format!("{}#{}-{}", mailbox, parts[0], parts[1])),
        Err(PjParseError::BadReceiverPubkey)
    );
    assert_eq!(
        PjParam::parse("example"),
        Err(PjParseError::BadEndpoint(UrlParseError::MissingScheme))
    );
}

#[test]
fn short_id_text_round_trips() {
    let id = ShortId([1, 2, 3, 4, 5, 6, 7, 8]);
    let text = id.as_string();
    assert!(text.starts_with("ID1"));
    assert_eq!(ShortId::parse(&text), Some(id));
    assert_eq!(ShortId::parse("EX1QQQQ"), None);
}

#[test]
fn uri_error_messages() {
    assert_eq!(MultipartyUriError::BadMppj.message(), "mppj must be 1");
    assert_eq!(MultipartyUriError::MissingPj.message(), "missing pj parameter");
    assert_eq!(
        MultipartyUriError::UnexpectedAddress.message(),
        "multiparty URI must not include a bitcoin address"
    );
}
