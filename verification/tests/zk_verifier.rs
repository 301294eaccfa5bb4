use ethos_protocol::zk_verifier::{ConditionalProof, VerifierError, ZkVerifierContract, MAX_CLAIM_SIZE, MAX_PROOF_SIZE};

fn zk_setup() -> ZkVerifierContract {
    let mut c = ZkVerifierContract::new();
    c.initialize("GADMIN".to_string()).unwrap();
    c
}

fn verify(c: &ZkVerifierContract, proof: &[u8], claim: &[u8]) -> Result<bool, VerifierError> {
    c.verify_claim(proof, claim).map(|v| v.verified)
}

const PROOF: [u8; 4] = [0xde, 0xad, 0xbe, 0xef];
const CLAIM: [u8; 4] = [0xca, 0xfe, 0xba, 0xbe];

#[test]
fn test_malformed_empty_proof_panics() {
    let c = zk_setup();
    let err = verify(&c, &[], &CLAIM).unwrap_err();
    assert_eq!(err, VerifierError::EmptyProof);
    assert_eq!(err.code(), 1);
}

#[test]
fn test_malformed_empty_claim_panics() {
    let c = zk_setup();
    let err = verify(&c, &PROOF, &[]).unwrap_err();
    assert_eq!(err, VerifierError::EmptyClaim);
    assert_eq!(err.code(), 2);
}

#[test]
fn test_unattested_proof_returns_false() {
    let c = zk_setup();
    assert_eq!(verify(&c, &PROOF, &CLAIM), Ok(false));
}

#[test]
fn test_attested_proof_returns_true() {
    let mut c = zk_setup();
    c.register_oracle("GORACLE".to_string()).unwrap();
    c.attest("GORACLE".to_string(), &PROOF, &CLAIM).unwrap();
    assert_eq!(verify(&c, &PROOF, &CLAIM), Ok(true));
}

#[test]
fn test_different_proof_not_validated_after_attestation() {
    let mut c = zk_setup();
    c.register_oracle("GORACLE".to_string()).unwrap();
    c.attest("GORACLE".to_string(), &PROOF, &CLAIM).unwrap();
    assert_eq!(verify(&c, &[0x12, 0x34], &CLAIM), Ok(false));
}

#[test]
fn test_revoked_oracle_attestation_no_longer_accepted() {
    let mut c = zk_setup();
    c.register_oracle("GORACLE".to_string()).unwrap();
    c.attest("GORACLE".to_string(), &PROOF, &CLAIM).unwrap();
    assert_eq!(verify(&c, &PROOF, &CLAIM), Ok(true));
    c.revoke_oracle("GORACLE").unwrap();
    assert!(!c.is_oracle("GORACLE"));
    assert_eq!(verify(&c, &PROOF, &CLAIM), Ok(false));
}

#[test]
fn test_unregistered_oracle_cannot_attest() {
    let mut c = zk_setup();
    let err = c.attest("GROGUE".to_string(), &PROOF, &CLAIM).unwrap_err();
    assert_eq!(err, VerifierError::OracleNotFound);
    assert_eq!(err.code(), 7);
}

#[test]
fn test_register_and_is_oracle() {
    let mut c = zk_setup();
    assert!(!c.is_oracle("GORACLE"));
    c.register_oracle("GORACLE".to_string()).unwrap();
    assert!(c.is_oracle("GORACLE"));
    c.revoke_oracle("GORACLE").unwrap();
    assert!(!c.is_oracle("GORACLE"));
}

#[test]
fn test_double_initialize_fails() {
    let mut c = ZkVerifierContract::new();
    c.initialize("GADMIN".to_string()).unwrap();
    let err = c.initialize("GADMIN".to_string()).unwrap_err();
    assert_eq!(err, VerifierError::AlreadyInitialized);
    assert_eq!(err.code(), 5);
}

#[test]
fn test_proof_at_max_size_succeeds() {
    let mut c = zk_setup();
    c.register_oracle("GORACLE".to_string()).unwrap();
    let proof = vec![0xffu8; MAX_PROOF_SIZE as usize];
    assert_eq!(verify(&c, &proof, &CLAIM), Ok(false));
    c.attest("GORACLE".to_string(), &proof, &CLAIM).unwrap();
    assert_eq!(verify(&c, &proof, &CLAIM), Ok(true));
}

#[test]
fn test_proof_exceeds_max_size_panics() {
    let c = zk_setup();
    let proof = vec![0xffu8; MAX_PROOF_SIZE as usize + 1];
    let err = verify(&c, &proof, &CLAIM).unwrap_err();
    assert_eq!(err, VerifierError::ProofTooLarge);
    assert_eq!(err.code(), 3);
}

#[test]
fn test_claim_at_max_size_succeeds() {
    let mut c = zk_setup();
    c.register_oracle("GORACLE".to_string()).unwrap();
    let claim = vec![0xaau8; MAX_CLAIM_SIZE as usize];
    assert_eq!(verify(&c, &PROOF, &claim), Ok(false));
    c.attest("GORACLE".to_string(), &PROOF, &claim).unwrap();
    assert_eq!(verify(&c, &PROOF, &claim), Ok(true));
}

#[test]
fn test_claim_exceeds_max_size_panics() {
    let c = zk_setup();
    let claim = vec![0xaau8; MAX_CLAIM_SIZE as usize + 1];
    let err = verify(&c, &PROOF, &claim).unwrap_err();
    assert_eq!(err, VerifierError::ClaimTooLarge);
    assert_eq!(err.code(), 4);
}

#[test]
fn test_attest_returns_credential_id() {
    let mut c = zk_setup();
    c.register_oracle("GORACLE".to_string()).unwrap();
    assert_eq!(c.attest("GORACLE".to_string(), &PROOF, &CLAIM), Ok(1));
    assert_eq!(c.attest("GORACLE".to_string(), &PROOF, &CLAIM), Ok(1));
    assert_eq!(c.attest("GORACLE".to_string(), &PROOF, &[0x12, 0x34]), Ok(2));
}

#[test]
fn oracle_management_needs_initialization() {
    let mut c = ZkVerifierContract::new();
    assert_eq!(c.register_oracle("GORACLE".to_string()), Err(VerifierError::NotInitialized));
    assert_eq!(c.revoke_oracle("GORACLE"), Err(VerifierError::NotInitialized));
    assert_eq!(VerifierError::NotInitialized.code(), 6);
    assert!(c.admin().is_none());
}

#[test]
fn attest_checks_inputs_before_the_oracle() {
    let mut c = zk_setup();
    assert_eq!(c.attest("GROGUE".to_string(), &[], &CLAIM), Err(VerifierError::EmptyProof));
    assert_eq!(c.attest("GROGUE".to_string(), &PROOF, &[]), Err(VerifierError::EmptyClaim));
}

#[test]
fn verify_claim_reports_the_claim_digest() {
    let c = zk_setup();
    let v = c.verify_claim(&PROOF, b"abc").unwrap();
    // SHA-256("abc")
    assert_eq!(
        v.claim_hash[..4],
        [0xba, 0x78, 0x16, 0xbf]
    );
    assert_eq!(v.claim_hash[28..], [0xf2, 0x00, 0x15, 0xad]);
}

#[test]
fn conditional_proof_checks_the_selected_branch() {
    let mut c = zk_setup();
    c.register_oracle("GORACLE".to_string()).unwrap();
    let condition = b"cond".to_vec();
    c.attest("GORACLE".to_string(), b"cond-proof", &condition).unwrap();
    c.attest("GORACLE".to_string(), b"then-proof", b"then-claim").unwrap();
    let bundle = ConditionalProof {
        condition_proof: b"cond-proof".to_vec(),
        then_claim: b"then-claim".to_vec(),
        then_proof: b"then-proof".to_vec(),
        else_claim: b"else-claim".to_vec(),
        else_proof: b"else-proof".to_vec(),
    };
    let v = c.verify_conditional_proof(&bundle, &condition).unwrap();
    assert!(v.condition_verified);
    assert!(v.verified);
    // With an unattested condition, the else branch (unattested) is checked.
    let v = c.verify_conditional_proof(&bundle, b"other").unwrap();
    assert!(!v.condition_verified);
    assert!(!v.verified);
    let empty_else = ConditionalProof { else_proof: vec![], ..bundle };
    assert_eq!(
        c.verify_conditional_proof(&empty_else, b"other").unwrap_err(),
        VerifierError::EmptyProof
    );
    assert_eq!(VerifierError::MalformedConditionalProof.code(), 8);
}
