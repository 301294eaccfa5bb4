use ethos_protocol::sbt::{
    apply_schema_migration, CacheStats, RecoveryPolicy, SbtContract, SbtError, CURRENT_SCHEMA_VERSION,
};

fn sbt_setup() -> SbtContract {
    let mut c = SbtContract::new();
    c.initialize("GADMIN".to_string()).unwrap();
    c
}

const POLICY: RecoveryPolicy = RecoveryPolicy { max_attempts: 3, window_seconds: 3600 };

#[test]
fn minting_assigns_sequential_ids_at_the_current_schema() {
    let mut c = sbt_setup();
    assert_eq!(c.mint_sbt("GALICE".to_string(), b"meta".to_vec(), 10), Ok(0));
    assert_eq!(c.mint_sbt("GBOB".to_string(), b"m2".to_vec(), 11), Ok(1));
    assert_eq!(c.get_holder(1), Ok("GBOB".to_string()));
    assert_eq!(c.get_metadata(0), Ok(b"meta".to_vec()));
    assert_eq!(c.get_schema_version(0), Ok(CURRENT_SCHEMA_VERSION));
    assert_eq!(c.get_holder(2), Err(SbtError::SbtNotFound));
    assert_eq!(SbtError::SbtNotFound.code(), 4);
}

#[test]
fn minting_checks_initialization_and_metadata() {
    let mut c = SbtContract::new();
    assert_eq!(c.mint_sbt("GA".to_string(), b"m".to_vec(), 0), Err(SbtError::NotInitialized));
    c.initialize("GADMIN".to_string()).unwrap();
    assert_eq!(c.initialize("GOTHER".to_string()), Err(SbtError::AlreadyInitialized));
    assert_eq!(c.mint_sbt("GA".to_string(), vec![], 0), Err(SbtError::EmptyMetadata));
    assert_eq!(c.mint_sbt("GA".to_string(), vec![1; 4097], 0), Err(SbtError::MetadataTooLarge));
    assert_eq!(c.mint_sbt("GA".to_string(), vec![1; 4096], 0), Ok(0));
}

#[test]
fn identity_linking_needs_a_currently_trusted_attestation() {
    let mut c = sbt_setup();
    c.mint_sbt("GALICE".to_string(), b"meta".to_vec(), 0).unwrap();
    let identity = [7u8; 32];
    assert_eq!(
        c.register_identity_attestation("GKYC".to_string(), identity, b"proof"),
        Err(SbtError::NotAttestor)
    );
    c.add_attestor("GKYC".to_string()).unwrap();
    assert!(c.is_attestor("GKYC"));
    assert_eq!(c.register_identity_attestation("GKYC".to_string(), identity, b""), Err(SbtError::EmptyProof));
    assert_eq!(
        c.register_identity_attestation("GKYC".to_string(), identity, &vec![0; 4097]),
        Err(SbtError::ProofTooLarge)
    );
    c.register_identity_attestation("GKYC".to_string(), identity, b"proof").unwrap();
    assert_eq!(c.link_sbt_to_identity(0, identity, b"wrong", 5), Err(SbtError::AttestationNotFound));
    assert_eq!(c.link_sbt_to_identity(9, identity, b"proof", 5), Err(SbtError::SbtNotFound));
    c.link_sbt_to_identity(0, identity, b"proof", 5).unwrap();
    assert!(c.is_identity_linked(0));
    assert_eq!(c.get_linked_identity_hash(0), Some(identity));
    assert_eq!(c.link_sbt_to_identity(0, identity, b"proof", 6), Err(SbtError::IdentityAlreadyLinked));
    c.unlink_sbt_identity(0).unwrap();
    assert!(!c.is_identity_linked(0));
    assert_eq!(c.unlink_sbt_identity(0), Err(SbtError::NoIdentityLinked));
    // A revoked attestor's commitments can no longer be redeemed.
    c.remove_attestor("GKYC").unwrap();
    assert_eq!(c.link_sbt_to_identity(0, identity, b"proof", 7), Err(SbtError::AttestationNotFound));
}

#[test]
fn holder_cache_hits_and_misses() {
    let mut c = sbt_setup();
    c.mint_sbt("GALICE".to_string(), b"meta".to_vec(), 0).unwrap();
    assert_eq!(c.cache_hit_rate_bps(), 0);
    assert_eq!(c.verify_holder_cached(0, "GALICE", 100), Ok(true));
    assert_eq!(c.verify_holder_cached(0, "GBOB", 200), Ok(false));
    assert_eq!(c.verify_holder_cached(0, "GALICE", 399), Ok(true));
    // The entry expires 300 s after it was cached.
    assert_eq!(c.verify_holder_cached(0, "GALICE", 400), Ok(true));
    assert_eq!(c.get_cache_stats(), CacheStats { hits: 2, misses: 2 });
    assert_eq!(c.cache_hit_rate_bps(), 5000);
    assert_eq!(c.verify_holder_cached(3, "GALICE", 400), Err(SbtError::SbtNotFound));
    c.invalidate_holder_cache(0).unwrap();
    assert_eq!(c.verify_holder_cached(0, "GALICE", 401), Ok(true));
    assert_eq!(c.get_cache_stats(), CacheStats { hits: 2, misses: 3 });
}

#[test]
fn schema_migration() {
    let mut c = sbt_setup();
    c.mint_sbt("GALICE".to_string(), b"meta".to_vec(), 0).unwrap();
    // Minted at the current version: no forward target exists.
    assert_eq!(c.migrate_sbt_metadata(0, 2), Ok(false));
    assert_eq!(c.migrate_sbt_metadata(0, 3), Ok(false));
    assert_eq!(c.migrate_sbt_metadata(5, 2), Err(SbtError::SbtNotFound));
    assert_eq!(apply_schema_migration(1, b"abc"), Ok(vec![2, b'a', b'b', b'c']));
    assert_eq!(apply_schema_migration(2, b"abc"), Err(SbtError::InvalidSchemaTransition));
}

#[test]
fn recovery_codes_are_single_use_and_change_the_holder() {
    let mut c = sbt_setup();
    c.mint_sbt("GALICE".to_string(), b"meta".to_vec(), 0).unwrap();
    assert_eq!(
        c.recover_sbt_with_recovery_code(0, b"x", "GBOB".to_string(), 10, POLICY),
        Err(SbtError::NoRecoveryCodes)
    );
    let codes = vec![[1u8; 32], [2u8; 32]];
    assert_eq!(c.generate_sbt_recovery_codes(0, codes.clone()), Ok(codes.clone()));
    assert_eq!(c.recover_sbt_with_recovery_code(0, b"nope", "GBOB".to_string(), 10, POLICY), Ok(false));
    assert_eq!(c.get_holder(0), Ok("GALICE".to_string()));
    assert_eq!(c.verify_holder_cached(0, "GALICE", 10), Ok(true));
    assert_eq!(c.recover_sbt_with_recovery_code(0, &[2u8; 32], "GBOB".to_string(), 11, POLICY), Ok(true));
    assert_eq!(c.get_holder(0), Ok("GBOB".to_string()));
    // The cached holder was dropped on the change.
    assert_eq!(c.verify_holder_cached(0, "GBOB", 12), Ok(true));
    // The same code cannot be used twice.
    assert_eq!(c.recover_sbt_with_recovery_code(0, &[2u8; 32], "GCAROL".to_string(), 13, POLICY), Ok(false));
}

#[test]
fn recovery_attempts_are_rate_limited_per_window() {
    let mut c = sbt_setup();
    c.mint_sbt("GALICE".to_string(), b"meta".to_vec(), 0).unwrap();
    c.generate_sbt_recovery_codes(0, vec![[9u8; 32]]).unwrap();
    for t in 0..3 {
        assert_eq!(c.recover_sbt_with_recovery_code(0, b"bad", "GBOB".to_string(), 100 + t, POLICY), Ok(false));
    }
    assert_eq!(
        c.recover_sbt_with_recovery_code(0, &[9u8; 32], "GBOB".to_string(), 200, POLICY),
        Err(SbtError::RecoveryRateLimited)
    );
    assert_eq!(SbtError::RecoveryRateLimited.code(), 14);
    // After the window has passed, attempts are admitted again.
    assert_eq!(c.recover_sbt_with_recovery_code(0, &[9u8; 32], "GBOB".to_string(), 3700, POLICY), Ok(true));
}

#[test]
fn regenerating_codes_invalidates_earlier_ones() {
    let mut c = sbt_setup();
    c.mint_sbt("GALICE".to_string(), b"meta".to_vec(), 0).unwrap();
    c.generate_sbt_recovery_codes(0, vec![[1u8; 32]]).unwrap();
    c.generate_sbt_recovery_codes(0, vec![[3u8; 32]]).unwrap();
    assert_eq!(c.recover_sbt_with_recovery_code(0, &[1u8; 32], "GBOB".to_string(), 1, POLICY), Ok(false));
    assert_eq!(c.recover_sbt_with_recovery_code(0, &[3u8; 32], "GBOB".to_string(), 2, POLICY), Ok(true));
    assert_eq!(c.generate_sbt_recovery_codes(4, vec![]), Err(SbtError::SbtNotFound));
}

#[test]
fn attestor_management_needs_initialization() {
    let mut c = SbtContract::new();
    assert_eq!(c.add_attestor("GKYC".to_string()), Err(SbtError::NotInitialized));
    assert_eq!(c.remove_attestor("GKYC"), Err(SbtError::NotInitialized));
    assert_eq!(c.invalidate_holder_cache(0), Err(SbtError::NotInitialized));
    assert!(!c.is_attestor("GKYC"));
}

#[test]
fn only_a_successful_recovery_changes_the_holder() {
    let mut c = sbt_setup();
    c.mint_sbt("GALICE".to_string(), b"meta".to_vec(), 0).unwrap();
    c.add_attestor("GKYC".to_string()).unwrap();
    c.verify_holder_cached(0, "GALICE", 1).unwrap();
    c.invalidate_holder_cache(0).unwrap();
    c.mint_sbt("GBOB".to_string(), b"m".to_vec(), 2).unwrap();
    c.generate_sbt_recovery_codes(0, vec![[5u8; 32]]).unwrap();
    c.recover_sbt_with_recovery_code(0, b"bad", "GEVE".to_string(), 3, POLICY).unwrap();
    assert_eq!(c.get_holder(0), Ok("GALICE".to_string()));
    assert_eq!(c.recover_sbt_with_recovery_code(0, &[5u8; 32], "GCAROL".to_string(), 4, POLICY), Ok(true));
    assert_eq!(c.get_holder(0), Ok("GCAROL".to_string()));
    assert_eq!(c.get_holder(1), Ok("GBOB".to_string()));
}

#[test]
fn cached_checks_agree_with_the_holder_and_count_one_each() {
    let mut c = sbt_setup();
    c.mint_sbt("GALICE".to_string(), b"meta".to_vec(), 0).unwrap();
    c.generate_sbt_recovery_codes(0, vec![[5u8; 32]]).unwrap();
    let mut calls = 0u64;
    for (t, who) in [(1u64, "GALICE"), (2, "GBOB"), (3, "GALICE")] {
        let holder = c.get_holder(0).unwrap();
        assert_eq!(c.verify_holder_cached(0, who, t), Ok(holder == who));
        calls += 1;
    }
    c.recover_sbt_with_recovery_code(0, &[5u8; 32], "GBOB".to_string(), 4, POLICY).unwrap();
    assert_eq!(c.verify_holder_cached(0, "GBOB", 5), Ok(true));
    calls += 1;
    let stats = c.get_cache_stats();
    assert_eq!(stats.hits + stats.misses, calls);
}

#[test]
fn mint_succeeds_once_initialized_with_valid_metadata() {
    let mut c = sbt_setup();
    assert_eq!(c.mint_sbt("GA".to_string(), vec![1], 0), Ok(0));
    assert_eq!(c.unlink_sbt_identity(0), Err(SbtError::NoIdentityLinked));
}
