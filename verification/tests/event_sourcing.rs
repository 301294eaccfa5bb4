use ethos_protocol::clock::Timestamp;
use ethos_protocol::event_sourcing::{
    apply_event, EventData, EventLog, EventReplayer, EventSourcingState, EventType, SnapshotState,
    SnapshotStore, StoredEvent, Vault, VaultEvent, VaultSnapshot, VaultStatus, CURRENT_SCHEMA_VERSION,
};
use ethos_protocol::json::{JsonObject, JsonScalar};

fn object(fields: &[(&str, JsonScalar)]) -> EventData {
    let mut o = JsonObject::new();
    for (k, v) in fields {
        o.insert(k.to_string(), v.clone());
    }
    EventData::Object(o)
}

fn stamp(secs: i64) -> Timestamp {
    Timestamp { secs, nanos: 0 }
}

fn make_log_with_events() -> EventLog {
    let mut log = EventLog::new();
    log.append("vault-1".to_string(), EventType::Deposit, object(&[("balance_delta", JsonScalar::PosInt(1000))]))
        .unwrap();
    log.append("vault-1".to_string(), EventType::CheckIn, object(&[("ttl_remaining", JsonScalar::PosInt(86400))]))
        .unwrap();
    log.append("vault-1".to_string(), EventType::Withdrawal, object(&[("balance_delta", JsonScalar::PosInt(200))]))
        .unwrap();
    log
}

#[test]
fn append_is_append_only_and_sequences_are_monotonic() {
    let log = make_log_with_events();
    let events = log.events_for_vault("vault-1").unwrap();
    assert_eq!(events.len(), 3);
    assert_eq!(events[0].sequence, 1);
    assert_eq!(events[1].sequence, 2);
    assert_eq!(events[2].sequence, 3);
}

#[test]
fn events_after_filters_correctly() {
    let log = make_log_with_events();
    let events = log.events_after("vault-1", 1).unwrap();
    assert_eq!(events.len(), 2);
    assert_eq!(events[0].sequence, 2);
}

#[test]
fn replay_rebuilds_balance_from_scratch() {
    let log = make_log_with_events();
    let snapshots = SnapshotStore::new();
    let replayer = EventReplayer::new(&log, &snapshots);
    let result = replayer.replay("vault-1").unwrap();
    // 1000 deposit - 200 withdrawal = 800
    assert_eq!(result.state.balance, 800);
    assert_eq!(result.events_applied, 3);
}

#[test]
fn replay_uses_snapshot_as_baseline() {
    let log = make_log_with_events();
    let mut snapshots = SnapshotStore::new();
    snapshots
        .save(VaultSnapshot {
            vault_id: "vault-1".to_string(),
            snapshot_sequence: 2,
            taken_at: stamp(5),
            state: SnapshotState {
                balance: 1000,
                status: VaultStatus::Active,
                last_check_in: stamp(5),
                ttl_remaining: Some(86400),
            },
        })
        .unwrap();
    let replayer = EventReplayer::new(&log, &snapshots);
    let result = replayer.replay("vault-1").unwrap();
    // Snapshot balance 1000 - 200 withdrawal (seq 3) = 800
    assert_eq!(result.state.balance, 800);
    assert_eq!(result.events_applied, 1);
}

#[test]
fn replay_to_target_sequence_stops_at_correct_point() {
    let log = make_log_with_events();
    let snapshots = SnapshotStore::new();
    let replayer = EventReplayer::new(&log, &snapshots);
    let result = replayer.replay_to("vault-1", 1).unwrap();
    assert_eq!(result.state.balance, 1000);
    assert_eq!(result.events_applied, 1);
}

#[test]
fn schema_version_migration_renames_amount_field() {
    let mut event = StoredEvent {
        vault_id: "v".to_string(),
        sequence: 1,
        event_type: EventType::Deposit,
        timestamp: stamp(1),
        data: object(&[("amount", JsonScalar::PosInt(500))]),
        schema_version: 0,
    };
    event = event.migrate_to_current();
    assert_eq!(event.schema_version, CURRENT_SCHEMA_VERSION);
    assert!(event.data.get("balance_delta").is_some());
    assert!(event.data.get("amount").is_none());
}

#[test]
fn separate_vaults_have_independent_sequences() {
    let mut log = EventLog::new();
    log.append("vault-a".to_string(), EventType::Deposit, object(&[])).unwrap();
    log.append("vault-b".to_string(), EventType::Deposit, object(&[])).unwrap();
    log.append("vault-a".to_string(), EventType::CheckIn, object(&[])).unwrap();
    let a_events = log.events_for_vault("vault-a").unwrap();
    let b_events = log.events_for_vault("vault-b").unwrap();
    assert_eq!(a_events[0].sequence, 1);
    assert_eq!(a_events[1].sequence, 2);
    assert_eq!(b_events[0].sequence, 1);
}

#[test]
fn status_change_event_updates_status() {
    let mut log = EventLog::new();
    log.append(
        "vault-1".to_string(),
        EventType::StatusChange,
        object(&[("status", JsonScalar::Str("released".to_string()))]),
    )
    .unwrap();
    let snapshots = SnapshotStore::new();
    let replayer = EventReplayer::new(&log, &snapshots);
    let result = replayer.replay("vault-1").unwrap();
    assert_eq!(result.state.status, VaultStatus::Released);
}

#[test]
fn append_returns_the_per_vault_sequence_and_log_length_grows() {
    let mut log = EventLog::new();
    assert_eq!(log.len().unwrap(), 0);
    assert_eq!(log.append("a".to_string(), EventType::Deposit, object(&[])).unwrap(), 1);
    assert_eq!(log.append("a".to_string(), EventType::Deposit, object(&[])).unwrap(), 2);
    assert_eq!(log.append("b".to_string(), EventType::Deposit, object(&[])).unwrap(), 1);
    assert_eq!(log.len().unwrap(), 3);
    assert!(log.events_for_vault("c").unwrap().is_empty());
}

#[test]
fn legacy_events_are_appended_like_new_ones() {
    let mut log = EventLog::new();
    let legacy = VaultEvent {
        vault_id: "vault-9".to_string(),
        event_type: EventType::Deposit,
        data: object(&[("balance_delta", JsonScalar::PosInt(5))]),
    };
    assert_eq!(log.import_legacy_event(&legacy).unwrap(), 1);
    assert_eq!(log.import_legacy_event(&legacy).unwrap(), 2);
}

#[test]
fn release_zeroes_the_balance_and_other_events_apply_their_fields() {
    let mut state = SnapshotState {
        balance: 50,
        status: VaultStatus::Active,
        last_check_in: stamp(0),
        ttl_remaining: None,
    };
    let ttl = StoredEvent::new_at(
        "v".to_string(),
        1,
        EventType::TtlUpdate,
        object(&[("ttl_remaining", JsonScalar::PosInt(60))]),
        stamp(3),
    );
    apply_event(&mut state, &ttl);
    assert_eq!(state.ttl_remaining, Some(60));
    let check_in = StoredEvent::new_at("v".to_string(), 2, EventType::CheckIn, object(&[]), stamp(9));
    apply_event(&mut state, &check_in);
    assert_eq!(state.last_check_in, stamp(9));
    assert_eq!(state.ttl_remaining, Some(60));
    let unknown_status = StoredEvent::new_at(
        "v".to_string(),
        3,
        EventType::StatusChange,
        object(&[("status", JsonScalar::Str("frozen".to_string()))]),
        stamp(10),
    );
    apply_event(&mut state, &unknown_status);
    assert_eq!(state.status, VaultStatus::Active);
    let release = StoredEvent::new_at("v".to_string(), 4, EventType::Release, object(&[]), stamp(11));
    apply_event(&mut state, &release);
    assert_eq!(state.balance, 0);
    assert_eq!(state.status, VaultStatus::Released);
}

#[test]
fn snapshot_of_a_vault_is_stored_and_replaced() {
    let mut snapshots = SnapshotStore::new();
    assert!(snapshots.get("vault-1").unwrap().is_none());
    let vault = Vault {
        id: "vault-1".to_string(),
        balance: 70,
        status: VaultStatus::Paused,
        last_check_in: stamp(2),
        ttl_remaining: Some(5),
    };
    snapshots.take_snapshot(&vault, 4).unwrap();
    let snap = snapshots.get("vault-1").unwrap().unwrap();
    assert_eq!(snap.snapshot_sequence, 4);
    assert_eq!(snap.state, SnapshotState::initial(&vault));
    snapshots.take_snapshot(&vault, 6).unwrap();
    assert_eq!(snapshots.get("vault-1").unwrap().unwrap().snapshot_sequence, 6);
}

#[test]
fn replay_of_an_unknown_vault_starts_from_an_empty_state() {
    let state = EventSourcingState::new();
    let result = state.replayer().replay("nobody").unwrap();
    assert_eq!(result.state.balance, 0);
    assert_eq!(result.state.status, VaultStatus::Active);
    assert_eq!(result.events_applied, 0);
    assert_eq!(result.last_sequence, 0);
}

#[test]
fn replay_to_past_the_last_sequence_is_a_full_replay() {
    let log = make_log_with_events();
    let snapshots = SnapshotStore::new();
    let replayer = EventReplayer::new(&log, &snapshots);
    let full = replayer.replay_at("vault-1", stamp(9)).unwrap();
    for target in [3u64, 4, 1000] {
        let to = replayer.replay_to_at("vault-1", target, stamp(9)).unwrap();
        assert_eq!(to.state, full.state);
        assert_eq!(to.last_sequence, full.last_sequence);
        assert_eq!(to.events_applied, full.events_applied);
    }
}

#[test]
fn appends_to_one_vault_leave_the_others_alone() {
    let mut log = make_log_with_events();
    let before = log.events_for_vault("vault-1").unwrap().len();
    for k in 1..=4u64 {
        let s = log.append("vault-2".to_string(), EventType::CheckIn, object(&[])).unwrap();
        assert_eq!(s, k);
    }
    assert_eq!(log.events_for_vault("vault-1").unwrap().len(), before);
    let seqs: Vec<u64> = log.events_for_vault("vault-2").unwrap().iter().map(|e| e.sequence).collect();
    assert_eq!(seqs, vec![1, 2, 3, 4]);
}
