use bitcoin::absolute::LockTime;
use bitcoin::transaction::Version;
use bitcoin::{FeeRate, Sequence};
use multiparty_payjoin::multiparty::session_parameters::{
    generate_session_secret, session_secret_from, InputScriptType, SessionParameters,
    SessionParametersError, SESSION_SECRET_LEN,
};

fn sample_session_secret() -> [u8; SESSION_SECRET_LEN] {
    [0x42u8; SESSION_SECRET_LEN]
}

fn sample_params() -> SessionParameters {
    SessionParameters {
        tx_version: Version::TWO.0,
        lock_time: LockTime::from_height(850_000).expect("valid height locktime").to_consensus_u32(),
        min_feerate: FeeRate::from_sat_per_vb(2).expect("valid feerate").to_sat_per_kwu(),
        input_sequence: Sequence::ENABLE_RBF_NO_LOCKTIME.0,
        allowed_input_types: std::sync::Arc::new(vec![
            InputScriptType::P2wpkh,
            InputScriptType::P2tr,
        ]),
        session_expiry: Some(1_800_000_000),
        session_secret: sample_session_secret(),
    }
}

#[test]
fn round_trip_with_session_expiry() {
    let params = sample_params();
    let bytes = params.to_bytes();
    let parsed = SessionParameters::from_bytes(&bytes).expect("deserialize");
    assert_eq!(parsed, params);
}

#[test]
fn round_trip_without_session_expiry() {
    let mut params = sample_params();
    params.session_expiry = None;
    let parsed = SessionParameters::from_bytes(&params.to_bytes()).expect("deserialize");
    assert_eq!(parsed, params);
}

#[test]
fn round_trip_lock_time_seconds() {
    let params = SessionParameters {
        lock_time: LockTime::from_time(1_700_000_000)
            .expect("valid time locktime")
            .to_consensus_u32(),
        ..sample_params()
    };
    assert_eq!(SessionParameters::from_bytes(&params.to_bytes()).expect("deserialize"), params);
}

#[test]
fn rejects_invalid_magic() {
    let mut bytes = sample_params().to_bytes();
    bytes[0] ^= 1;
    assert_eq!(SessionParameters::from_bytes(&bytes), Err(SessionParametersError::InvalidMagic));
}

#[test]
fn rejects_unsupported_version() {
    let mut bytes = sample_params().to_bytes();
    bytes[4] = 99;
    assert_eq!(
        SessionParameters::from_bytes(&bytes),
        Err(SessionParametersError::UnsupportedVersion(99))
    );
}

#[test]
fn rejects_empty_allowed_input_types() {
    let mut bytes = sample_params().to_bytes();
    bytes[25] = 0;
    assert_eq!(
        SessionParameters::from_bytes(&bytes),
        Err(SessionParametersError::EmptyAllowedInputTypes)
    );
}

#[test]
fn rejects_duplicate_allowed_input_types() {
    let params = SessionParameters {
        allowed_input_types: std::sync::Arc::new(vec![
            InputScriptType::P2wpkh,
            InputScriptType::P2wpkh,
        ]),
        ..sample_params()
    };
    assert_eq!(
        SessionParameters::from_bytes(&params.to_bytes()),
        Err(SessionParametersError::DuplicateInputType(InputScriptType::P2wpkh))
    );
}

#[test]
fn rejects_unknown_input_type() {
    let mut bytes = sample_params().to_bytes();
    // first allowed type discriminant
    bytes[26] = 255;
    assert_eq!(
        SessionParameters::from_bytes(&bytes),
        Err(SessionParametersError::UnknownInputType(255))
    );
}

#[test]
fn rejects_all_zero_session_secret() {
    let mut params = sample_params();
    params.session_secret = [0u8; SESSION_SECRET_LEN];
    assert_eq!(
        SessionParameters::from_bytes(&params.to_bytes()),
        Err(SessionParametersError::InvalidSessionSecret)
    );
}

#[test]
fn generate_session_secret_is_non_zero() {
    let secret = generate_session_secret();
    assert_ne!(secret, [0u8; SESSION_SECRET_LEN]);
}

#[test]
fn session_secret_of_drawn_bytes() {
    let drawn = [7u8; SESSION_SECRET_LEN];
    assert_eq!(session_secret_from(drawn), drawn);
    let mut one = [0u8; SESSION_SECRET_LEN];
    one[31] = 1;
    assert_eq!(session_secret_from([0u8; SESSION_SECRET_LEN]), one);
    assert_eq!(session_secret_from(one), one);
    assert_ne!(generate_session_secret(), generate_session_secret());
}

#[test]
fn rejects_trailing_bytes() {
    let mut bytes = sample_params().to_bytes();
    bytes.push(0);
    assert_eq!(
        SessionParameters::from_bytes(&bytes),
        Err(SessionParametersError::TrailingBytes(1))
    );
}

#[test]
fn rejects_invalid_feerate() {
    let mut bytes = sample_params().to_bytes();
    // zero sat/vb is invalid for FeeRate::from_sat_per_vb
    bytes[13..21].copy_from_slice(&0u64.to_le_bytes());
    assert_eq!(
        SessionParameters::from_bytes(&bytes),
        Err(SessionParametersError::InvalidFeeRate)
    );
}

#[test]
fn wire_layout_is_stable() {
    let params = SessionParameters {
        tx_version: Version::TWO.0,
        lock_time: LockTime::ZERO.to_consensus_u32(),
        min_feerate: FeeRate::from_sat_per_vb(1).expect("valid feerate").to_sat_per_kwu(),
        input_sequence: Sequence(0xffff_ffff).0,
        allowed_input_types: std::sync::Arc::new(vec![InputScriptType::P2pkh]),
        session_expiry: None,
        session_secret: sample_session_secret(),
    };
    let bytes = params.to_bytes();
    assert_eq!(&bytes[..5], b"mpp0\x00");
    assert_eq!(bytes[5..9], 2i32.to_le_bytes());
    assert_eq!(bytes[9..13], LockTime::ZERO.to_consensus_u32().to_le_bytes());
    assert_eq!(bytes[13..21], 1u64.to_le_bytes());
    assert_eq!(bytes[21..25], Sequence(0xffff_ffff).to_consensus_u32().to_le_bytes());
    assert_eq!(bytes[25..27], [1u8, InputScriptType::P2pkh.discriminant()]);
    assert_eq!(bytes[27], 0);
    assert_eq!(bytes[28..28 + SESSION_SECRET_LEN], sample_session_secret());
}

#[test]
fn feerate_round_trip_preserves_floor_sat_per_vb() {
    let rate = FeeRate::from_sat_per_vb(3).expect("valid feerate");
    let params = SessionParameters { min_feerate: rate.to_sat_per_kwu(), ..sample_params() };
    let parsed = SessionParameters::from_bytes(&params.to_bytes()).expect("deserialize");
    assert_eq!(
        FeeRate::from_sat_per_kwu(parsed.min_feerate).to_sat_per_vb_floor(),
        rate.to_sat_per_vb_floor()
    );
}

#[test]
fn feerate_is_rounded_down() {
    let params = SessionParameters { min_feerate: 999, ..sample_params() };
    let parsed = SessionParameters::from_bytes(&params.to_bytes()).expect("deserialize");
    assert_eq!(parsed.min_feerate, 750);
}

#[test]
fn rejects_huge_feerate() {
    let mut bytes = sample_params().to_bytes();
    bytes[13..21].copy_from_slice(&u64::MAX.to_le_bytes());
    assert_eq!(
        SessionParameters::from_bytes(&bytes),
        Err(SessionParametersError::InvalidFeeRate)
    );
}

#[test]
fn rejects_every_proper_prefix() {
    let bytes = sample_params().to_bytes();
    for n in 0..bytes.len() {
        assert!(SessionParameters::from_bytes(&bytes[..n]).is_err());
    }
    assert_eq!(
        SessionParameters::from_bytes(&bytes[..20]),
        Err(SessionParametersError::Truncated)
    );
}

#[test]
fn rejects_too_many_input_types_and_bad_flag() {
    let mut bytes = sample_params().to_bytes();
    bytes[25] = 6;
    assert_eq!(
        SessionParameters::from_bytes(&bytes),
        Err(SessionParametersError::TooManyAllowedInputTypes(6))
    );
    let mut bytes = sample_params().to_bytes();
    bytes[28] = 2;
    assert_eq!(
        SessionParameters::from_bytes(&bytes),
        Err(SessionParametersError::InvalidSessionExpiryFlag(2))
    );
}

#[test]
fn padding_of_a_message_is_ignored() {
    let params = sample_params();
    let mut body = params.to_bytes();
    body.resize(7023, 0);
    assert_eq!(SessionParameters::from_message_a_body(&body), Ok(params));
    body[7000] = 1;
    assert!(matches!(
        SessionParameters::from_message_a_body(&body),
        Err(SessionParametersError::TrailingBytes(_))
    ));
}

#[test]
fn new_parameters_have_a_fresh_secret() {
    let make = || {
        SessionParameters::new(
            2,
            0,
            250,
            0xffff_fffd,
            vec![InputScriptType::P2tr],
            None,
        )
    };
    assert_ne!(make().session_secret, make().session_secret);
}

#[test]
fn discriminants_round_trip() {
    for (byte, kind) in [
        InputScriptType::P2pkh,
        InputScriptType::P2sh,
        InputScriptType::P2wpkh,
        InputScriptType::P2wsh,
        InputScriptType::P2tr,
    ]
    .into_iter()
    .enumerate()
    {
        assert_eq!(InputScriptType::from_discriminant(kind.discriminant()), Ok(kind));
        assert_eq!(kind.discriminant() as usize, byte);
    }
}

#[test]
fn session_parameters_error_messages() {
    assert_eq!(
        SessionParametersError::InvalidMagic.message(),
        "invalid session parameters magic"
    );
    assert_eq!(SessionParametersError::TrailingBytes(12).message(), "trailing bytes (12)");
    assert_eq!(
        SessionParametersError::DuplicateInputType(InputScriptType::P2wpkh).message(),
        "duplicate allowed input type P2wpkh"
    );
}
