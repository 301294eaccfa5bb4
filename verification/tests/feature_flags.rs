use ethos_protocol::text::decimal_text;
use ethos_protocol::clock::Timestamp;
use ethos_protocol::feature_flags::{
    bucket_for, create_flag_store, default_rollout, evaluate_flag, evaluate_flag_handler, get_flag,
    list_flags, EvaluateFlagRequest, FeatureFlag, FlagError, FlagState, UpsertFlagRequest,
};

fn stamp(secs: i64) -> Timestamp {
    Timestamp { secs, nanos: 0 }
}

fn sample_flag(rollout: u8) -> FeatureFlag {
    FeatureFlag {
        key: "new-checkout".to_string(),
        description: None,
        enabled: true,
        rollout_percentage: rollout,
        version: 1,
        created_at: stamp(0),
        updated_at: stamp(0),
        history: Vec::new(),
    }
}

fn upsert_request(key: &str, enabled: bool, rollout: u8) -> UpsertFlagRequest {
    UpsertFlagRequest {
        key: key.to_string(),
        description: None,
        enabled,
        rollout_percentage: rollout,
        updated_by: Some("ops".to_string()),
    }
}

#[test]
fn disabled_flag_never_enabled() {
    let mut flag = sample_flag(100);
    flag.enabled = false;
    let eval = evaluate_flag(&flag, "user-1");
    assert!(!eval.enabled);
}

#[test]
fn full_rollout_always_enabled() {
    let flag = sample_flag(100);
    for i in 0..50 {
        let eval = evaluate_flag(&flag, &format!("user-{i}"));
        assert!(eval.enabled);
    }
}

#[test]
fn zero_rollout_never_enabled() {
    let flag = sample_flag(0);
    let eval = evaluate_flag(&flag, "user-1");
    assert!(!eval.enabled);
}

#[test]
fn evaluation_is_deterministic() {
    let flag = sample_flag(50);
    let first = evaluate_flag(&flag, "user-42");
    let second = evaluate_flag(&flag, "user-42");
    assert_eq!(first.enabled, second.enabled);
}

#[test]
fn bucket_is_fnv1a_of_key_colon_subject_mod_100() {
    let mut hash: u64 = 0xcbf29ce484222325;
    for b in "a:b".bytes() {
        hash ^= b as u64;
        hash = hash.wrapping_mul(0x100000001b3);
    }
    assert_eq!(bucket_for("a", "b") as u64, hash % 100);
    assert!(bucket_for("new-checkout", "user-1") < 100);
}

#[test]
fn evaluation_reports_reason_and_version() {
    let flag = sample_flag(100);
    let eval = evaluate_flag(&flag, "user-7");
    assert_eq!(eval.key, "new-checkout");
    assert_eq!(eval.subject_id, "user-7");
    assert_eq!(eval.flag_version, 1);
    assert_eq!(eval.reason, "fully rolled out");
    let mut off = sample_flag(100);
    off.enabled = false;
    assert_eq!(evaluate_flag(&off, "user-7").reason, "flag disabled");
    let partial = sample_flag(30);
    let e = evaluate_flag(&partial, "user-7");
    assert_eq!(e.reason, "gradual rollout at 30%");
    assert_eq!(e.enabled, bucket_for("new-checkout", "user-7") < 30);
}

#[test]
fn upsert_creates_then_versions_a_flag() {
    let mut store = create_flag_store();
    let created = store.upsert(upsert_request("beta", true, 40), stamp(1)).unwrap();
    assert_eq!(created.version, 1);
    assert!(created.history.is_empty());
    let updated = store.upsert(upsert_request("beta", false, 60), stamp(2)).unwrap();
    assert_eq!(updated.version, 2);
    assert!(!updated.enabled);
    assert_eq!(updated.rollout_percentage, 60);
    assert_eq!(updated.created_at, stamp(1));
    assert_eq!(updated.updated_at, stamp(2));
    assert_eq!(updated.history.len(), 1);
    assert_eq!(updated.history[0].version, 1);
    assert!(updated.history[0].enabled);
    assert_eq!(updated.history[0].rollout_percentage, 40);
    assert_eq!(list_flags(&store).len(), 1);
    assert_eq!(get_flag(&store, "beta").unwrap().version, 2);
    assert!(get_flag(&store, "gamma").is_none());
}

#[test]
fn upsert_refuses_blank_keys_and_rollouts_above_100() {
    let mut store = create_flag_store();
    let e = store.upsert(upsert_request("   ", true, 10), stamp(1)).unwrap_err();
    assert_eq!(e, FlagError::EmptyKey);
    assert_eq!(e.status(), 422);
    assert_eq!(e.message(), "key must not be empty");
    let e = store.upsert(upsert_request("k", true, 101), stamp(1)).unwrap_err();
    assert_eq!(e, FlagError::RolloutOutOfRange);
    assert_eq!(e.message(), "rollout_percentage must be 0-100");
    assert_eq!(store.len(), 0);
}

#[test]
fn evaluate_handler_needs_an_existing_flag() {
    let mut state = FlagState::new();
    state.store.upsert(upsert_request("beta", true, 100), stamp(1)).unwrap();
    let body = EvaluateFlagRequest { subject_id: "s".to_string() };
    assert!(evaluate_flag_handler(&state.store, "beta", &body).unwrap().enabled);
    assert!(evaluate_flag_handler(&state.store, "nope", &body).is_none());
    assert_eq!(default_rollout(), 100);
}

#[test]
fn percentages_are_written_in_decimal() {
    assert_eq!(decimal_text(0), "0");
    assert_eq!(decimal_text(7), "7");
    assert_eq!(decimal_text(42), "42");
    assert_eq!(decimal_text(100), "100");
    assert_eq!(decimal_text(255), "255");
}
