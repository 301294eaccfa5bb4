use base64::Engine as _;
use ethos_protocol::webauthn::{
    read_sign_count, AddBackupAuthenticatorRequest, BackupAuthenticatorOutcome, BeginAuthenticationRequest,
    BeginRegistrationRequest, CompleteAuthenticationRequest, CompleteRegistrationRequest, CoseAlgorithm,
    WebAuthnError, WebAuthnState,
};

fn b64(data: &[u8]) -> String {
    base64::engine::general_purpose::URL_SAFE_NO_PAD.encode(data)
}

fn make_webauthn_state() -> WebAuthnState {
    WebAuthnState::new(
        "localhost".to_string(),
        "Test RP".to_string(),
        "http://localhost:3000".to_string(),
    )
}

fn client_data_json(type_: &str, challenge: &str, origin: &str) -> String {
    let raw = format!(r#"{{"type":"{type_}","challenge":"{challenge}","origin":"{origin}"}}"#);
    b64(raw.as_bytes())
}

fn fake_auth_data(sign_count: u32) -> String {
    let mut data = vec![0u8; 37];
    let bytes = sign_count.to_be_bytes();
    data[33] = bytes[0];
    data[34] = bytes[1];
    data[35] = bytes[2];
    data[36] = bytes[3];
    b64(&data)
}

fn register(state: &mut WebAuthnState, user: &str, cred_byte: u8) -> String {
    let begin = state
        .begin_registration(&BeginRegistrationRequest {
            user_id: user.to_string(),
            user_name: "Someone".to_string(),
            label: None,
            is_backup: false,
        })
        .unwrap();
    let cred_id = b64(&vec![cred_byte; 32]);
    state
        .complete_registration(&CompleteRegistrationRequest {
            session_id: begin.session_id,
            credential_id: cred_id.clone(),
            client_data_json: client_data_json("webauthn.create", &begin.challenge, "http://localhost:3000"),
            attestation_object: b64(b"att"),
            label: None,
            is_backup: false,
        })
        .unwrap();
    cred_id
}

fn authenticate(state: &mut WebAuthnState, user: &str, cred_id: &str, count: u32) -> Result<u32, WebAuthnError> {
    let begin = state.begin_authentication(&BeginAuthenticationRequest { user_id: user.to_string() }).unwrap();
    state
        .complete_authentication(&CompleteAuthenticationRequest {
            session_id: begin.session_id,
            credential_id: cred_id.to_string(),
            client_data_json: client_data_json("webauthn.get", &begin.challenge, "http://localhost:3000"),
            authenticator_data: fake_auth_data(count),
            signature: b64(b"sig"),
        })
        .map(|r| r.sign_count)
}

#[test]
fn test_begin_registration_empty_user_id() {
    let mut state = make_webauthn_state();
    let result = state.begin_registration(&BeginRegistrationRequest {
        user_id: "".to_string(),
        user_name: "alice".to_string(),
        label: None,
        is_backup: false,
    });
    let err = result.unwrap_err();
    assert_eq!(err, WebAuthnError::EmptyUserId);
    assert_eq!(err.status(), 422);
}

#[test]
fn test_registration_and_authentication_flow() {
    let mut state = make_webauthn_state();
    let begin = state
        .begin_registration(&BeginRegistrationRequest {
            user_id: "user1".to_string(),
            user_name: "Alice".to_string(),
            label: None,
            is_backup: false,
        })
        .unwrap();
    let session_id = begin.session_id.clone();
    let challenge = begin.challenge.clone();
    let client_data = client_data_json("webauthn.create", &challenge, "http://localhost:3000");
    let fake_cred_id = b64(&vec![0xAA; 32]);
    let fake_attestation = b64(b"fake-attestation");
    let reg = state
        .complete_registration(&CompleteRegistrationRequest {
            session_id,
            credential_id: fake_cred_id.clone(),
            client_data_json: client_data,
            attestation_object: fake_attestation,
            label: Some("Test Key".to_string()),
            is_backup: false,
        })
        .unwrap();
    assert_eq!(reg.user_id, "user1");
    assert_eq!(reg.credential_id, fake_cred_id);

    let auth_begin = state
        .begin_authentication(&BeginAuthenticationRequest { user_id: "user1".to_string() })
        .unwrap();
    assert!(!auth_begin.allow_credentials.is_empty());
    let auth_client_data = client_data_json("webauthn.get", &auth_begin.challenge, "http://localhost:3000");
    let auth = state
        .complete_authentication(&CompleteAuthenticationRequest {
            session_id: auth_begin.session_id,
            credential_id: fake_cred_id.clone(),
            client_data_json: auth_client_data,
            authenticator_data: fake_auth_data(1),
            signature: b64(b"fake-sig"),
        })
        .unwrap();
    assert_eq!(auth.user_id, "user1");
    assert_eq!(auth.sign_count, 1);
}

#[test]
fn test_clone_detection() {
    let mut state = make_webauthn_state();
    let cred = register(&mut state, "user2", 0xBB);
    assert_eq!(authenticate(&mut state, "user2", &cred, 5), Ok(5));
    let err = authenticate(&mut state, "user2", &cred, 3).unwrap_err();
    assert_eq!(err, WebAuthnError::CloneDetected);
    assert_eq!(err.status(), 403);
}

#[test]
fn begin_registration_offers_challenge_and_algorithms() {
    let mut state = make_webauthn_state();
    let begin = state
        .begin_registration_with(
            &BeginRegistrationRequest {
                user_id: "u".to_string(),
                user_name: "Uma".to_string(),
                label: None,
                is_backup: false,
            },
            vec![1u8; 32],
            &[2u8; 32],
            1000,
        )
        .unwrap();
    assert_eq!(begin.challenge, b64(&[1u8; 32]));
    assert_eq!(begin.session_id, b64(&[2u8; 32]));
    assert_eq!(begin.rp.id, "localhost");
    assert_eq!(begin.rp.name, "Test RP");
    assert_eq!(begin.user.id, b64(b"u"));
    assert_eq!(begin.user.display_name, "Uma");
    assert_eq!(begin.timeout_ms, 300_000);
    assert_eq!(begin.attestation, "none");
    let algs: Vec<i32> = begin.pub_key_cred_params.iter().map(|p| p.alg).collect();
    assert_eq!(algs, vec![-7, -8, -257]);
    assert_eq!(CoseAlgorithm::RS256.cose_id(), -257);
    let err = state
        .begin_registration_with(
            &BeginRegistrationRequest {
                user_id: "u".to_string(),
                user_name: "".to_string(),
                label: None,
                is_backup: false,
            },
            vec![1u8; 32],
            &[3u8; 32],
            1000,
        )
        .unwrap_err();
    assert_eq!(err, WebAuthnError::EmptyUserName);
}

#[test]
fn registration_answers_are_checked_in_order() {
    let mut state = make_webauthn_state();
    let req = BeginRegistrationRequest {
        user_id: "u".to_string(),
        user_name: "Uma".to_string(),
        label: None,
        is_backup: true,
    };
    let challenge = b64(&[9u8; 32]);
    let mut answer = |state: &mut WebAuthnState, token: u8, cred: String, cd: String, now: u64| {
        state.begin_registration_with(&req, vec![9u8; 32], &[token; 32], 100).unwrap();
        state.complete_registration_at(
            &CompleteRegistrationRequest {
                session_id: b64(&[token; 32]),
                credential_id: cred,
                client_data_json: cd,
                attestation_object: b64(b"att"),
                label: None,
                is_backup: true,
            },
            now,
            ethos_protocol::clock::Timestamp { secs: 1, nanos: 0 },
            ethos_protocol::clock::Timestamp { secs: 2, nanos: 0 },
        )
    };
    let good_cd = client_data_json("webauthn.create", &challenge, "http://localhost:3000");
    let cred = b64(&[0x11; 20]);
    assert_eq!(
        answer(&mut state, 1, cred.clone(), good_cd.clone(), 401).unwrap_err(),
        WebAuthnError::RegistrationExpired
    );
    assert_eq!(
        answer(&mut state, 2, "!!".to_string(), good_cd.clone(), 100).unwrap_err(),
        WebAuthnError::InvalidCredentialIdEncoding
    );
    assert_eq!(
        answer(&mut state, 3, b64(&[1u8; 15]), good_cd.clone(), 100).unwrap_err(),
        WebAuthnError::CredentialIdTooShort
    );
    assert_eq!(
        answer(&mut state, 4, cred.clone(), "%%".to_string(), 100).unwrap_err(),
        WebAuthnError::InvalidClientDataEncoding
    );
    assert_eq!(
        answer(&mut state, 5, cred.clone(), b64(b"not json"), 100).unwrap_err(),
        WebAuthnError::ClientDataNotJson
    );
    assert_eq!(
        answer(&mut state, 6, cred.clone(), client_data_json("webauthn.get", &challenge, "http://localhost:3000"), 100)
            .unwrap_err(),
        WebAuthnError::UnexpectedClientDataType
    );
    assert_eq!(
        answer(&mut state, 7, cred.clone(), client_data_json("webauthn.create", "abc", "http://localhost:3000"), 100)
            .unwrap_err(),
        WebAuthnError::ChallengeMismatch
    );
    assert_eq!(
        answer(&mut state, 8, cred.clone(), client_data_json("webauthn.create", &challenge, "https://evil"), 100)
            .unwrap_err(),
        WebAuthnError::OriginMismatch
    );
    let ok = answer(&mut state, 10, cred.clone(), good_cd.clone(), 400).unwrap();
    assert_eq!(ok.label, Some("Backup Authenticator".to_string()));
    assert!(ok.is_backup);
    assert_eq!(ok.created_at.secs, 2);
    assert_eq!(
        answer(&mut state, 11, cred.clone(), good_cd.clone(), 100).unwrap_err(),
        WebAuthnError::CredentialAlreadyRegistered
    );
    assert_eq!(WebAuthnError::CredentialAlreadyRegistered.status(), 409);
    let stored = state.list_credentials("u");
    assert_eq!(stored.len(), 1);
    assert_eq!(stored[0].created_at.secs, 1);
    assert_eq!(stored[0].sign_count, 0);
}

#[test]
fn a_session_is_consumed_by_its_first_answer() {
    let mut state = make_webauthn_state();
    let begin = state
        .begin_registration(&BeginRegistrationRequest {
            user_id: "u".to_string(),
            user_name: "Uma".to_string(),
            label: None,
            is_backup: false,
        })
        .unwrap();
    let req = CompleteRegistrationRequest {
        session_id: begin.session_id.clone(),
        credential_id: "!!".to_string(),
        client_data_json: String::new(),
        attestation_object: String::new(),
        label: None,
        is_backup: false,
    };
    assert_eq!(state.complete_registration(&req).unwrap_err(), WebAuthnError::InvalidCredentialIdEncoding);
    assert_eq!(state.complete_registration(&req).unwrap_err(), WebAuthnError::UnknownSession);
}

#[test]
fn authentication_needs_registered_credentials() {
    let mut state = make_webauthn_state();
    let err = state
        .begin_authentication(&BeginAuthenticationRequest { user_id: "ghost".to_string() })
        .unwrap_err();
    assert_eq!(err, WebAuthnError::NoCredentialsRegistered);
    assert_eq!(err.status(), 404);
    let cred = register(&mut state, "u", 0x33);
    let begin = state.begin_authentication(&BeginAuthenticationRequest { user_id: "u".to_string() }).unwrap();
    assert_eq!(begin.allow_credentials.len(), 1);
    assert_eq!(begin.allow_credentials[0].id, cred);
    assert_eq!(begin.allow_credentials[0].kind, "public-key");
    assert_eq!(begin.user_verification, "preferred");
    let err = state
        .complete_authentication(&CompleteAuthenticationRequest {
            session_id: begin.session_id,
            credential_id: b64(&[0x44; 32]),
            client_data_json: client_data_json("webauthn.get", &begin.challenge, "http://localhost:3000"),
            authenticator_data: fake_auth_data(1),
            signature: b64(b"sig"),
        })
        .unwrap_err();
    assert_eq!(err, WebAuthnError::CredentialNotFound);
}

#[test]
fn empty_signature_and_zero_counters() {
    let mut state = make_webauthn_state();
    let cred = register(&mut state, "u", 0x55);
    let begin = state.begin_authentication(&BeginAuthenticationRequest { user_id: "u".to_string() }).unwrap();
    let err = state
        .complete_authentication(&CompleteAuthenticationRequest {
            session_id: begin.session_id,
            credential_id: cred.clone(),
            client_data_json: client_data_json("webauthn.get", &begin.challenge, "http://localhost:3000"),
            authenticator_data: fake_auth_data(1),
            signature: String::new(),
        })
        .unwrap_err();
    assert_eq!(err, WebAuthnError::EmptySignature);
    // Authenticators without a counter always report 0 and are accepted.
    assert_eq!(authenticate(&mut state, "u", &cred, 0), Ok(0));
    assert_eq!(authenticate(&mut state, "u", &cred, 0), Ok(0));
    let stored = state.list_credentials("u");
    assert!(stored[0].last_used_at.is_some());
}

#[test]
fn sign_count_is_big_endian_at_offset_33() {
    let mut data = vec![0u8; 37];
    data[33] = 0x01;
    data[36] = 0x02;
    assert_eq!(read_sign_count(&data), 0x0100_0002);
    assert_eq!(read_sign_count(&data[..36]), 0);
}

#[test]
fn removing_credentials() {
    let mut state = make_webauthn_state();
    assert_eq!(state.remove_credential("u", "x"), Err(WebAuthnError::UserNotFound));
    let a = register(&mut state, "u", 0x61);
    let b = register(&mut state, "u", 0x62);
    assert_eq!(state.remove_credential("u", "x"), Err(WebAuthnError::CredentialNotFound));
    assert_eq!(state.remove_credential("u", &a), Ok(()));
    assert_eq!(state.list_credentials("u").len(), 1);
    // The last credential is kept: its removal is refused.
    assert_eq!(state.remove_credential("u", &b), Err(WebAuthnError::LastCredential));
    assert_eq!(state.list_credentials("u").len(), 1);
    assert_eq!(state.list_credentials("u")[0].credential_id, b);
    assert_eq!(WebAuthnError::LastCredential.message(), "cannot remove the last credential for a user");
}

#[test]
fn backup_authenticators() {
    let mut state = make_webauthn_state();
    let cred = register(&mut state, "u", 0x71);
    let outcome = state.add_backup_authenticator(
        "u",
        &cred,
        &AddBackupAuthenticatorRequest { user_id: "u".to_string(), label: Some("Spare key".to_string()) },
    );
    match outcome {
        BackupAuthenticatorOutcome::MarkedAsBackup { credential_id } => assert_eq!(credential_id, cred),
        _ => panic!("expected the credential to be marked"),
    }
    let stored = state.list_credentials("u");
    assert!(stored[0].is_backup);
    assert_eq!(stored[0].label, Some("Spare key".to_string()));
    let outcome = state.add_backup_authenticator_with(
        "u",
        "not-registered",
        &AddBackupAuthenticatorRequest { user_id: "u".to_string(), label: None },
        vec![4u8; 32],
        &[5u8; 32],
        10,
    );
    match outcome {
        BackupAuthenticatorOutcome::RegistrationIssued { session_id, challenge } => {
            assert_eq!(session_id, b64(&[5u8; 32]));
            assert_eq!(challenge, b64(&[4u8; 32]));
        },
        _ => panic!("expected a registration challenge"),
    }
}

#[test]
fn settings_fall_back_to_defaults() {
    let state = WebAuthnState::from_settings(None, Some("RP".to_string()), None);
    assert_eq!(state.rp_id, "localhost");
    assert_eq!(state.rp_name, "RP");
    assert_eq!(state.origin, "http://localhost:3000");
}
